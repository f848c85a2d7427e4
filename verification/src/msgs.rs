//! Executable builders for the fixed texts of the interpreter:
//! command words and report lines, each pinned to its byte sequence
//! in the model.

use vstd::prelude::*;
use vstd::slice::slice_to_vec;

use crate::model::{word_cur_dir, word_make_dir, word_change_dir, word_remove_dir,
    word_dir_tree, word_clear, root_name_text, msg_name_missing, msg_already_exists,
    msg_no_space, msg_already_root, msg_no_such_dir, msg_dir_changed, msg_folder_prefix,
    msg_is_created, msg_removed_prefix, msg_was_removed, msg_not_supported_open,
    msg_not_supported_close};

verus! {

/// Builds the text `cur_dir` as bytes.
pub fn text_word_cur_dir() -> (r: Vec<u8>)
    ensures
        r@ == word_cur_dir(),
{
    let a: [u8; 7] = ['c' as u8, 'u' as u8, 'r' as u8, '_' as u8, 'd' as u8, 'i' as u8, 'r' as u8];
    let v = slice_to_vec(a.as_slice());
    assert(v@ =~= word_cur_dir());
    v
}

/// Builds the text `make_dir` as bytes.
pub fn text_word_make_dir() -> (r: Vec<u8>)
    ensures
        r@ == word_make_dir(),
{
    let a: [u8; 8] = ['m' as u8, 'a' as u8, 'k' as u8, 'e' as u8, '_' as u8, 'd' as u8, 'i' as u8, 'r' as u8];
    let v = slice_to_vec(a.as_slice());
    assert(v@ =~= word_make_dir());
    v
}

/// Builds the text `change_dir` as bytes.
pub fn text_word_change_dir() -> (r: Vec<u8>)
    ensures
        r@ == word_change_dir(),
{
    let a: [u8; 10] = ['c' as u8, 'h' as u8, 'a' as u8, 'n' as u8, 'g' as u8, 'e' as u8, '_' as u8, 'd' as u8, 'i' as u8, 'r' as u8];
    let v = slice_to_vec(a.as_slice());
    assert(v@ =~= word_change_dir());
    v
}

/// Builds the text `remove_dir` as bytes.
pub fn text_word_remove_dir() -> (r: Vec<u8>)
    ensures
        r@ == word_remove_dir(),
{
    let a: [u8; 10] = ['r' as u8, 'e' as u8, 'm' as u8, 'o' as u8, 'v' as u8, 'e' as u8, '_' as u8, 'd' as u8, 'i' as u8, 'r' as u8];
    let v = slice_to_vec(a.as_slice());
    assert(v@ =~= word_remove_dir());
    v
}

/// Builds the text `dir_tree` as bytes.
pub fn text_word_dir_tree() -> (r: Vec<u8>)
    ensures
        r@ == word_dir_tree(),
{
    let a: [u8; 8] = ['d' as u8, 'i' as u8, 'r' as u8, '_' as u8, 't' as u8, 'r' as u8, 'e' as u8, 'e' as u8];
    let v = slice_to_vec(a.as_slice());
    assert(v@ =~= word_dir_tree());
    v
}

/// Builds the text `clear` as bytes.
pub fn text_word_clear() -> (r: Vec<u8>)
    ensures
        r@ == word_clear(),
{
    let a: [u8; 5] = ['c' as u8, 'l' as u8, 'e' as u8, 'a' as u8, 'r' as u8];
    let v = slice_to_vec(a.as_slice());
    assert(v@ =~= word_clear());
    v
}

/// Builds the text `root      ` as bytes.
pub fn text_root_name_text() -> (r: Vec<u8>)
    ensures
        r@ == root_name_text(),
{
    let a: [u8; 10] = ['r' as u8, 'o' as u8, 'o' as u8, 't' as u8, ' ' as u8, ' ' as u8, ' ' as u8, ' ' as u8, ' ' as u8, ' ' as u8];
    let v = slice_to_vec(a.as_slice());
    assert(v@ =~= root_name_text());
    v
}

/// Builds the text `[error] The folder name is missing` as bytes.
pub fn text_msg_name_missing() -> (r: Vec<u8>)
    ensures
        r@ == msg_name_missing(),
{
    let a: [u8; 34] = ['[' as u8, 'e' as u8, 'r' as u8, 'r' as u8, 'o' as u8, 'r' as u8, ']' as u8, ' ' as u8, 'T' as u8, 'h' as u8, 'e' as u8, ' ' as u8, 'f' as u8, 'o' as u8, 'l' as u8, 'd' as u8, 'e' as u8, 'r' as u8, ' ' as u8, 'n' as u8, 'a' as u8, 'm' as u8, 'e' as u8, ' ' as u8, 'i' as u8, 's' as u8, ' ' as u8, 'm' as u8, 'i' as u8, 's' as u8, 's' as u8, 'i' as u8, 'n' as u8, 'g' as u8];
    let v = slice_to_vec(a.as_slice());
    assert(v@ =~= msg_name_missing());
    v
}

/// Builds the text `[error] Such dir is already exists!` as bytes.
pub fn text_msg_already_exists() -> (r: Vec<u8>)
    ensures
        r@ == msg_already_exists(),
{
    let a: [u8; 35] = ['[' as u8, 'e' as u8, 'r' as u8, 'r' as u8, 'o' as u8, 'r' as u8, ']' as u8, ' ' as u8, 'S' as u8, 'u' as u8, 'c' as u8, 'h' as u8, ' ' as u8, 'd' as u8, 'i' as u8, 'r' as u8, ' ' as u8, 'i' as u8, 's' as u8, ' ' as u8, 'a' as u8, 'l' as u8, 'r' as u8, 'e' as u8, 'a' as u8, 'd' as u8, 'y' as u8, ' ' as u8, 'e' as u8, 'x' as u8, 'i' as u8, 's' as u8, 't' as u8, 's' as u8, '!' as u8];
    let v = slice_to_vec(a.as_slice());
    assert(v@ =~= msg_already_exists());
    v
}

/// Builds the text `[error] No space for a new directory` as bytes.
pub fn text_msg_no_space() -> (r: Vec<u8>)
    ensures
        r@ == msg_no_space(),
{
    let a: [u8; 36] = ['[' as u8, 'e' as u8, 'r' as u8, 'r' as u8, 'o' as u8, 'r' as u8, ']' as u8, ' ' as u8, 'N' as u8, 'o' as u8, ' ' as u8, 's' as u8, 'p' as u8, 'a' as u8, 'c' as u8, 'e' as u8, ' ' as u8, 'f' as u8, 'o' as u8, 'r' as u8, ' ' as u8, 'a' as u8, ' ' as u8, 'n' as u8, 'e' as u8, 'w' as u8, ' ' as u8, 'd' as u8, 'i' as u8, 'r' as u8, 'e' as u8, 'c' as u8, 't' as u8, 'o' as u8, 'r' as u8, 'y' as u8];
    let v = slice_to_vec(a.as_slice());
    assert(v@ =~= msg_no_space());
    v
}

/// Builds the text `[error] You are already in the root directory` as bytes.
pub fn text_msg_already_root() -> (r: Vec<u8>)
    ensures
        r@ == msg_already_root(),
{
    let a: [u8; 45] = ['[' as u8, 'e' as u8, 'r' as u8, 'r' as u8, 'o' as u8, 'r' as u8, ']' as u8, ' ' as u8, 'Y' as u8, 'o' as u8, 'u' as u8, ' ' as u8, 'a' as u8, 'r' as u8, 'e' as u8, ' ' as u8, 'a' as u8, 'l' as u8, 'r' as u8, 'e' as u8, 'a' as u8, 'd' as u8, 'y' as u8, ' ' as u8, 'i' as u8, 'n' as u8, ' ' as u8, 't' as u8, 'h' as u8, 'e' as u8, ' ' as u8, 'r' as u8, 'o' as u8, 'o' as u8, 't' as u8, ' ' as u8, 'd' as u8, 'i' as u8, 'r' as u8, 'e' as u8, 'c' as u8, 't' as u8, 'o' as u8, 'r' as u8, 'y' as u8];
    let v = slice_to_vec(a.as_slice());
    assert(v@ =~= msg_already_root());
    v
}

/// Builds the text `[error] No such children directory!` as bytes.
pub fn text_msg_no_such_dir() -> (r: Vec<u8>)
    ensures
        r@ == msg_no_such_dir(),
{
    let a: [u8; 35] = ['[' as u8, 'e' as u8, 'r' as u8, 'r' as u8, 'o' as u8, 'r' as u8, ']' as u8, ' ' as u8, 'N' as u8, 'o' as u8, ' ' as u8, 's' as u8, 'u' as u8, 'c' as u8, 'h' as u8, ' ' as u8, 'c' as u8, 'h' as u8, 'i' as u8, 'l' as u8, 'd' as u8, 'r' as u8, 'e' as u8, 'n' as u8, ' ' as u8, 'd' as u8, 'i' as u8, 'r' as u8, 'e' as u8, 'c' as u8, 't' as u8, 'o' as u8, 'r' as u8, 'y' as u8, '!' as u8];
    let v = slice_to_vec(a.as_slice());
    assert(v@ =~= msg_no_such_dir());
    v
}

/// Builds the text `[ok] Directory changed` as bytes.
pub fn text_msg_dir_changed() -> (r: Vec<u8>)
    ensures
        r@ == msg_dir_changed(),
{
    let a: [u8; 22] = ['[' as u8, 'o' as u8, 'k' as u8, ']' as u8, ' ' as u8, 'D' as u8, 'i' as u8, 'r' as u8, 'e' as u8, 'c' as u8, 't' as u8, 'o' as u8, 'r' as u8, 'y' as u8, ' ' as u8, 'c' as u8, 'h' as u8, 'a' as u8, 'n' as u8, 'g' as u8, 'e' as u8, 'd' as u8];
    let v = slice_to_vec(a.as_slice());
    assert(v@ =~= msg_dir_changed());
    v
}

/// Builds the text `[ok] The folder ` as bytes.
pub fn text_msg_folder_prefix() -> (r: Vec<u8>)
    ensures
        r@ == msg_folder_prefix(),
{
    let a: [u8; 16] = ['[' as u8, 'o' as u8, 'k' as u8, ']' as u8, ' ' as u8, 'T' as u8, 'h' as u8, 'e' as u8, ' ' as u8, 'f' as u8, 'o' as u8, 'l' as u8, 'd' as u8, 'e' as u8, 'r' as u8, ' ' as u8];
    let v = slice_to_vec(a.as_slice());
    assert(v@ =~= msg_folder_prefix());
    v
}

/// Builds the text `is created` as bytes.
pub fn text_msg_is_created() -> (r: Vec<u8>)
    ensures
        r@ == msg_is_created(),
{
    let a: [u8; 10] = ['i' as u8, 's' as u8, ' ' as u8, 'c' as u8, 'r' as u8, 'e' as u8, 'a' as u8, 't' as u8, 'e' as u8, 'd' as u8];
    let v = slice_to_vec(a.as_slice());
    assert(v@ =~= msg_is_created());
    v
}

/// Builds the text `[ok] Directory ` as bytes.
pub fn text_msg_removed_prefix() -> (r: Vec<u8>)
    ensures
        r@ == msg_removed_prefix(),
{
    let a: [u8; 15] = ['[' as u8, 'o' as u8, 'k' as u8, ']' as u8, ' ' as u8, 'D' as u8, 'i' as u8, 'r' as u8, 'e' as u8, 'c' as u8, 't' as u8, 'o' as u8, 'r' as u8, 'y' as u8, ' ' as u8];
    let v = slice_to_vec(a.as_slice());
    assert(v@ =~= msg_removed_prefix());
    v
}

/// Builds the text `was removed` as bytes.
pub fn text_msg_was_removed() -> (r: Vec<u8>)
    ensures
        r@ == msg_was_removed(),
{
    let a: [u8; 11] = ['w' as u8, 'a' as u8, 's' as u8, ' ' as u8, 'r' as u8, 'e' as u8, 'm' as u8, 'o' as u8, 'v' as u8, 'e' as u8, 'd' as u8];
    let v = slice_to_vec(a.as_slice());
    assert(v@ =~= msg_was_removed());
    v
}

/// Builds the text `[error] Command '` as bytes.
pub fn text_msg_not_supported_open() -> (r: Vec<u8>)
    ensures
        r@ == msg_not_supported_open(),
{
    let a: [u8; 17] = ['[' as u8, 'e' as u8, 'r' as u8, 'r' as u8, 'o' as u8, 'r' as u8, ']' as u8, ' ' as u8, 'C' as u8, 'o' as u8, 'm' as u8, 'm' as u8, 'a' as u8, 'n' as u8, 'd' as u8, ' ' as u8, '\'' as u8];
    let v = slice_to_vec(a.as_slice());
    assert(v@ =~= msg_not_supported_open());
    v
}

/// Builds the text `' is not supported.` as bytes.
pub fn text_msg_not_supported_close() -> (r: Vec<u8>)
    ensures
        r@ == msg_not_supported_close(),
{
    let a: [u8; 19] = ['\'' as u8, ' ' as u8, 'i' as u8, 's' as u8, ' ' as u8, 'n' as u8, 'o' as u8, 't' as u8, ' ' as u8, 's' as u8, 'u' as u8, 'p' as u8, 'p' as u8, 'o' as u8, 'r' as u8, 't' as u8, 'e' as u8, 'd' as u8, '.' as u8];
    let v = slice_to_vec(a.as_slice());
    assert(v@ =~= msg_not_supported_close());
    v
}

} // verus!
