//! The command line, the wait for the dump, and the names of the files that the
//! editor is given.
use crate::text::{chars_of, decimal, law_decimal_is_worth_its_number, push_decimal, worth};
use vstd::prelude::*;
use vstd::string::StringExecFns;

verus! {

/// Whether an argument names a file: one that starts with `+` is meant for an
/// editor and does not.
pub open spec fn names_a_file(arg: Seq<char>) -> bool {
    arg.len() == 0 || arg[0] != '+'
}

/// Whether `i` is the first argument behind the program's name that names a file.
pub open spec fn is_first_file(args: Seq<String>, i: int) -> bool {
    &&& 1 <= i < args.len()
    &&& names_a_file(args[i]@)
    &&& forall|k: int| 1 <= k < i ==> !names_a_file(#[trigger] args[k]@)
}

/// Which argument names the dump: the first one behind the program's name that
/// names a file. Where there is none, or where it is empty, no dump is named.
pub fn dump_path(args: &Vec<String>) -> (r: Option<usize>)
    ensures
        match r {
            Some(i) => is_first_file(args@, i as int) && args@[i as int]@.len() > 0,
            None => forall|i: int| #[trigger]
                is_first_file(args@, i) ==> args@[i]@.len() == 0,
        },
{
    let mut i: usize = 1;
    while i < args.len()
        invariant
            1 <= i,
            forall|k: int| 1 <= k < i ==> !names_a_file(#[trigger] args@[k]@),
        decreases args@.len() - i,
    {
        let arg = chars_of(args[i].as_str());
        if arg.len() == 0 {
            assert forall|k: int| #[trigger] is_first_file(args@, k) implies args@[k]@.len() == 0 by {
                if k > i {
                    assert(!names_a_file(args@[i as int]@));
                }
            }
            return None;
        }
        if arg[0] != '+' {
            return Some(i);
        }
        i += 1;
    }
    None
}

/// How long to wait for a dump of this length, after so many looks.
pub open spec fn wait_ms(tried: u32, len: Option<u64>) -> Option<u64> {
    if tried >= 24 || (len matches Some(n) && n > 0) {
        None
    } else {
        Some(25)
    }
}

/// Whether to wait for the dump to be written, and how many milliseconds, before
/// looking at it again: `len` is its length, where it is there. Once it holds
/// something, or after 24 looks in vain, there is no more waiting.
pub fn next_wait(tried: u32, len: Option<u64>) -> (r: Option<u64>)
    ensures
        r == wait_ms(tried, len),
        r == (if tried >= 24 || (len matches Some(n) && n > 0) {
            None
        } else {
            Some(25u64)
        }),
{
    let written: bool = match len {
        Some(n) => n > 0,
        None => false,
    };
    if tried >= 24 || written {
        None
    } else {
        Some(25)
    }
}

/// The name of a file for the process `pid`, with this ending.
pub open spec fn file_name(pid: u32, ending: Seq<char>) -> Seq<char> {
    "/tmp/lvim-zcopy-plain-"@ + decimal(pid as nat) + ending
}

fn name_file(pid: u32, ending: &str) -> (r: String)
    ensures
        r@ == file_name(pid, ending@),
{
    let mut name: String = "/tmp/lvim-zcopy-plain-".to_owned();
    push_decimal(&mut name, pid as u128);
    name.append(ending);
    name
}

pub open spec fn plain_name(pid: u32) -> Seq<char> {
    file_name(pid, ".txt"@)
}

pub open spec fn spans_name(pid: u32) -> Seq<char> {
    file_name(pid, ".spans"@)
}

/// Where the plain text for the editor goes.
pub fn plain_path(pid: u32) -> (r: String)
    ensures
        r@ == plain_name(pid),
        r@ == file_name(pid, ".txt"@),
{
    name_file(pid, ".txt")
}

/// Where the colours for the editor go, beside the plain text.
pub fn spans_path(pid: u32) -> (r: String)
    ensures
        r@ == spans_name(pid),
        r@ == file_name(pid, ".spans"@),
{
    name_file(pid, ".spans")
}

pub open spec fn note_of(text: Seq<char>) -> Seq<char> {
    "lvim-zcopy: copied "@ + decimal(text.len()) + " chars"@
}

/// What is reported once a text has been copied: how many characters it has.
pub fn copied_note(text: &str) -> (r: String)
    ensures
        r@ == note_of(text@),
        r@ == "lvim-zcopy: copied "@ + decimal(text@.len()) + " chars"@,
{
    let mut note: String = "lvim-zcopy: copied ".to_owned();
    push_decimal(&mut note, chars_of(text).len() as u128);
    note.append(" chars");
    note
}

// ---- laws ----
/// Only a `+` in front keeps an argument from naming a file.
pub proof fn law_a_plus_names_no_file(rest: Seq<char>, arg: Seq<char>)
    ensures
        !names_a_file(seq!['+'] + rest),
        arg.len() == 0 ==> names_a_file(arg),
        arg.len() > 0 && arg[0] != '+' ==> names_a_file(arg),
{
}

/// The dump is the first file that is named: everything between the program's name
/// and it starts with a `+`, and it does not.
pub proof fn law_the_first_file_is_the_dump(args: Seq<String>, i: int)
    ensures
        is_first_file(args, i) <==> 1 <= i < args.len() && (args[i]@.len() == 0 || args[i]@[0] != '+')
            && forall|k: int|
            1 <= k < i ==> (#[trigger] args[k])@.len() > 0 && args[k]@[0] == '+',
{
    if 1 <= i < args.len() && (args[i]@.len() == 0 || args[i]@[0] != '+') && (forall|k: int|
        1 <= k < i ==> (#[trigger] args[k])@.len() > 0 && args[k]@[0] == '+') {
        assert forall|k: int| 1 <= k < i implies !names_a_file(#[trigger] args[k]@) by {
            assert(args[k]@.len() > 0 && args[k]@[0] == '+');
        }
    }
    if is_first_file(args, i) {
        assert forall|k: int| 1 <= k < i implies (#[trigger] args[k])@.len() > 0 && args[k]@[0]
            == '+' by {
            assert(!names_a_file(args[k]@));
        }
    }
}

/// A file's name is the prefix, the number of the process in decimal, and the ending.
pub proof fn law_a_file_name_is_prefix_pid_and_ending(pid: u32, ending: Seq<char>)
    ensures
        ({
            let prefix = "/tmp/lvim-zcopy-plain-"@;
            let name = file_name(pid, ending);
            let digits = name.subrange(prefix.len() as int, name.len() - ending.len());
            &&& name.len() > prefix.len() + ending.len()
            &&& name.take(prefix.len() as int) == prefix
            &&& name.skip(name.len() - ending.len()) == ending
            &&& worth(digits) == pid
            &&& forall|i: int| 0 <= i < digits.len() ==> '0' <= #[trigger] digits[i] <= '9'
        }),
{
    let prefix = "/tmp/lvim-zcopy-plain-"@;
    let name = file_name(pid, ending);
    law_decimal_is_worth_its_number(pid as nat);
    assert(name.take(prefix.len() as int) == prefix);
    assert(name.skip(name.len() - ending.len()) == ending);
    assert(name.subrange(prefix.len() as int, name.len() - ending.len()) == decimal(pid as nat));
}

/// As long as the dump is missing or empty it is looked at every 25 milliseconds, 24
/// times and no more. Once it holds something there is no wait.
pub proof fn law_the_wait_ends(tried: u32, len: Option<u64>)
    ensures
        len is Some && len->0 > 0 ==> wait_ms(tried, len) is None,
        tried >= 24 ==> wait_ms(tried, len) is None,
        tried < 24 && (len is None || len->0 == 0) ==> wait_ms(tried, len) == Some(25u64),
{
}

/// The two files of a process lie side by side: their names differ in the ending
/// alone, `.txt` and `.spans`.
pub proof fn law_the_two_files_lie_side_by_side(pid: u32)
    ensures
        ({
            let plain = plain_name(pid);
            let spans = spans_name(pid);
            let stem = plain.take(plain.len() - 4);
            &&& plain.len() > 4 && spans.len() > 6
            &&& plain == stem + seq!['.', 't', 'x', 't']
            &&& spans == stem + seq!['.', 's', 'p', 'a', 'n', 's']
            &&& stem == "/tmp/lvim-zcopy-plain-"@ + decimal(pid as nat)
        }),
{
    reveal_strlit(".txt");
    reveal_strlit(".spans");
    reveal_strlit("/tmp/lvim-zcopy-plain-");
    let stem = "/tmp/lvim-zcopy-plain-"@ + decimal(pid as nat);
    assert(".txt"@ == seq!['.', 't', 'x', 't']);
    assert(".spans"@ == seq!['.', 's', 'p', 'a', 'n', 's']);
    assert(plain_name(pid) == stem + ".txt"@);
    assert(plain_name(pid).take(plain_name(pid).len() - 4) == stem);
}

/// The note counts the characters of the text, and nothing else of it matters.
pub proof fn law_the_note_counts_characters(text: Seq<char>)
    ensures
        ({
            let head = "lvim-zcopy: copied "@;
            let tail = " chars"@;
            let note = note_of(text);
            let digits = note.subrange(head.len() as int, note.len() - tail.len());
            &&& note == head + digits + tail
            &&& worth(digits) == text.len()
            &&& forall|i: int| 0 <= i < digits.len() ==> '0' <= #[trigger] digits[i] <= '9'
        }),
{
    let head = "lvim-zcopy: copied "@;
    let tail = " chars"@;
    let note = note_of(text);
    law_decimal_is_worth_its_number(text.len());
    assert(note.subrange(head.len() as int, note.len() - tail.len()) == decimal(text.len()));
}

} // verus!
