//! One marking pass over the descriptor directory: what is done with each
//! entry, and what the pass leaves in the descriptor table.
use vstd::prelude::*;
use crate::fd_name::{NameError, fd_of_name, parse_fd_name};
use crate::flags::{has_cloexec, marked_flags, other_bits, lemma_marked_flags};
use crate::keep_set::{KeepSet, is_keep_of};

verus! {

/// What a pass does with one entry of the descriptor directory.
#[derive(Debug, Clone, Copy, PartialEq, Eq, Structural)]
pub enum EntryAction {
    /// The entry names the directory itself or its parent: nothing to do.
    Skip,
    /// Bring the close-on-exec bit of descriptor `fd` to `cloexec`.
    Mark { fd: i32, cloexec: bool },
}

/// True when `name` is `.` or `..`, the entries of every directory that
/// name no descriptor.
pub open spec fn is_dot_entry(name: Seq<u8>) -> bool {
    name == seq![0x2eu8] || name == seq![0x2eu8, 0x2eu8]
}

/// Whether descriptor `fd` is to be closed on `exec`, under the keep set `keep`.
pub open spec fn wanted_cloexec(keep: Seq<i32>, fd: i32) -> bool {
    !keep.contains(fd)
}

/// What a pass does with the entry named `name`, under the keep set `keep`.
pub open spec fn action_of(keep: Seq<i32>, name: Seq<u8>) -> Result<EntryAction, NameError> {
    if is_dot_entry(name) {
        Ok(EntryAction::Skip)
    } else {
        match fd_of_name(name) {
            Ok(fd) => Ok(EntryAction::Mark { fd, cloexec: wanted_cloexec(keep, fd) }),
            Err(e) => Err(e),
        }
    }
}

/// Decides what to do with the directory entry named `name` (its bytes
/// without the terminating NUL): skip `.` and `..`, else read the name as a
/// descriptor number and mark that descriptor close-on-exec unless it is kept.
/// A name that is no descriptor number is an error, which ends the pass.
pub fn entry_action(keep: &KeepSet, name: &[u8]) -> (r: Result<EntryAction, NameError>)
    ensures
        r == action_of(keep@, name@),
{
    let n = name.len();
    if (n == 1 || n == 2) && name[0] == 0x2e && name[n - 1] == 0x2e {
        assert(name@ =~= seq![0x2eu8] || name@ =~= seq![0x2eu8, 0x2eu8]);
        return Ok(EntryAction::Skip);
    }
    match parse_fd_name(name) {
        Ok(fd) => Ok(EntryAction::Mark { fd, cloexec: !keep.contains(fd) }),
        Err(e) => Err(e),
    }
}

/// The descriptor table after a pass under the keep set `keep`, where `table`
/// maps each open descriptor to the flag word it held before.
pub open spec fn pass_outcome(keep: Seq<i32>, table: Map<i32, i32>) -> Map<i32, i32> {
    Map::new(
        |fd: i32| table.dom().contains(fd),
        |fd: i32| marked_flags(table[fd], wanted_cloexec(keep, fd)),
    )
}

/// After a pass, every open descriptor that is kept has its close-on-exec bit
/// clear, every other one has it set, and no other bit of any flag word has
/// changed.
pub proof fn lemma_pass_marks_all_but_kept(keep: Seq<i32>, table: Map<i32, i32>)
    ensures
        pass_outcome(keep, table).dom() == table.dom(),
        forall|fd: i32|
            #![trigger pass_outcome(keep, table)[fd]]
            table.dom().contains(fd) ==> {
                &&& (keep.contains(fd) ==> !has_cloexec(pass_outcome(keep, table)[fd]))
                &&& (!keep.contains(fd) ==> has_cloexec(pass_outcome(keep, table)[fd]))
                &&& other_bits(pass_outcome(keep, table)[fd]) == other_bits(table[fd])
            },
{
    assert(pass_outcome(keep, table).dom() =~= table.dom());
    assert forall|fd: i32| table.dom().contains(fd) implies {
        &&& (keep.contains(fd) ==> !has_cloexec(pass_outcome(keep, table)[fd]))
        &&& (!keep.contains(fd) ==> has_cloexec(pass_outcome(keep, table)[fd]))
        &&& other_bits(pass_outcome(keep, table)[fd]) == other_bits(table[fd])
    } by {
        lemma_marked_flags(table[fd], wanted_cloexec(keep, fd));
    }
}

/// A second pass with the same keep set over an unchanged table changes
/// nothing: every bit already agrees, so it writes no flag word.
pub proof fn lemma_pass_idempotent(keep: Seq<i32>, table: Map<i32, i32>)
    ensures
        pass_outcome(keep, pass_outcome(keep, table)) == pass_outcome(keep, table),
        forall|fd: i32|
            #![trigger pass_outcome(keep, table)[fd]]
            table.dom().contains(fd) ==> has_cloexec(pass_outcome(keep, table)[fd])
                == wanted_cloexec(keep, fd),
{
    let once = pass_outcome(keep, table);
    lemma_pass_marks_all_but_kept(keep, table);
    assert(pass_outcome(keep, once) =~= once);
}

/// Keep sets made from inputs that hold the same numbers, however often and
/// in whatever order, lead to the same decision for every entry and so to the
/// same outcome of a pass.
pub proof fn lemma_same_numbers_same_pass(
    a: Seq<i32>,
    b: Seq<i32>,
    ka: Seq<i32>,
    kb: Seq<i32>,
    table: Map<i32, i32>,
)
    requires
        a.to_set() == b.to_set(),
        is_keep_of(ka, a),
        is_keep_of(kb, b),
    ensures
        forall|name: Seq<u8>| action_of(ka, name) == action_of(kb, name),
        pass_outcome(ka, table) == pass_outcome(kb, table),
{
    broadcast use vstd::seq_lib::group_to_multiset_ensures;
    assert forall|fd: i32| ka.contains(fd) == kb.contains(fd) by {
        assert(ka.to_multiset().count(fd) == a.to_multiset().count(fd));
        assert(kb.to_multiset().count(fd) == b.to_multiset().count(fd));
        assert(a.to_set().contains(fd) == a.contains(fd));
        assert(b.to_set().contains(fd) == b.contains(fd));
    }
    assert(pass_outcome(ka, table) =~= pass_outcome(kb, table));
}

/// With an empty keep set a pass marks every open descriptor close-on-exec.
pub proof fn lemma_empty_keep_marks_all(k: Seq<i32>, table: Map<i32, i32>)
    requires
        is_keep_of(k, Seq::<i32>::empty()),
    ensures
        forall|fd: i32|
            #![trigger pass_outcome(k, table)[fd]]
            table.dom().contains(fd) ==> has_cloexec(pass_outcome(k, table)[fd]),
{
    broadcast use vstd::seq_lib::group_to_multiset_ensures;
    assert(k.len() == 0) by {
        if k.len() > 0 {
            assert(k.to_multiset().count(k[0]) > 0);
        }
    }
    lemma_pass_marks_all_but_kept(k, table);
}

} // verus!
