use vstd::prelude::*;

use crate::store::{without_id, remove_task, clear_tasks};
use crate::task::Task;

verus! {

/// What `str::trim` returns: the text without leading and trailing white space.
pub uninterp spec fn trim_of(s: Seq<char>) -> Seq<char>;

/// What `str::to_lowercase` returns: the text in lower case.
pub uninterp spec fn lower_of(s: Seq<char>) -> Seq<char>;

/// Relies on `str::trim`: the result depends on the characters alone.
#[verifier::external_body]
fn trimmed(s: &str) -> (r: &str)
    ensures
        r@ == trim_of(s@),
{
    s.trim()
}

/// Relies on `str::to_lowercase`: the result depends on the characters alone.
#[verifier::external_body]
fn lowercase(s: &str) -> (r: String)
    ensures
        r@ == lower_of(s@),
{
    s.to_lowercase()
}

/// How an answer to a confirmation prompt is taken.
#[derive(PartialEq, Eq, Structural, Debug, Clone, Copy)]
pub enum Answer {
    Confirmed,
    Declined,
    Invalid,
}

/// The reading of an answer already trimmed and in lower case: "y" or "yes" confirms; "n", "no"
/// or nothing at all declines; anything else is invalid.
pub open spec fn answer_of(s: Seq<char>) -> Answer {
    if s == "y"@ || s == "yes"@ {
        Answer::Confirmed
    } else if s == "n"@ || s == "no"@ || s.len() == 0 {
        Answer::Declined
    } else {
        Answer::Invalid
    }
}

/// The reading of a raw answer line: trimmed and put in lower case first.
pub open spec fn answer_of_line(line: Seq<char>) -> Answer {
    answer_of(lower_of(trim_of(line)))
}

/// The two texts hold the same characters.
fn same_text(a: &str, b: &str) -> (r: bool)
    ensures
        r == (a@ == b@),
{
    let n = a.unicode_len();
    if n != b.unicode_len() {
        return false;
    }
    let mut i: usize = 0;
    while i < n
        invariant
            n == a@.len() == b@.len(),
            i <= n,
            a@.subrange(0, i as int) == b@.subrange(0, i as int),
        decreases n - i,
    {
        if a.get_char(i) != b.get_char(i) {
            return false;
        }
        assert(a@.subrange(0, i + 1) =~= a@.subrange(0, i as int).push(a@[i as int]));
        assert(b@.subrange(0, i + 1) =~= b@.subrange(0, i as int).push(b@[i as int]));
        i = i + 1;
    }
    assert(a@ =~= a@.subrange(0, n as int));
    assert(b@ =~= b@.subrange(0, n as int));
    true
}

/// Reads an answer that is already trimmed and in lower case.
pub fn classify(s: &str) -> (r: Answer)
    ensures
        r == answer_of(s@),
{
    if same_text(s, "y") || same_text(s, "yes") {
        Answer::Confirmed
    } else if same_text(s, "n") || same_text(s, "no") || s.unicode_len() == 0 {
        Answer::Declined
    } else {
        Answer::Invalid
    }
}

/// Reads a raw answer line, case-insensitively and ignoring surrounding white space.
pub fn read_answer(line: &str) -> (r: Answer)
    ensures
        r == answer_of_line(line@),
{
    let t = trimmed(line);
    let l = lowercase(t);
    classify(l.as_str())
}

/// Deletes the tasks with the id where the answer to the confirmation prompt confirms;
/// otherwise the store stays as it is. Returns how the answer was taken. The answer is asked
/// for whether or not a task has the id; confirming for an unknown id changes nothing.
pub fn remove(tasks: &mut Vec<Task>, id: usize, answer: &str) -> (r: Answer)
    ensures
        r == answer_of_line(answer@),
        final(tasks)@ == (if r == Answer::Confirmed {
            without_id(old(tasks)@, id)
        } else {
            old(tasks)@
        }),
{
    let r = read_answer(answer);
    if r == Answer::Confirmed {
        remove_task(tasks, id);
    }
    r
}

/// Deletes every task where the answer to the confirmation prompt confirms; otherwise the
/// store stays as it is. Returns how the answer was taken.
pub fn purge(tasks: &mut Vec<Task>, answer: &str) -> (r: Answer)
    ensures
        r == answer_of_line(answer@),
        final(tasks)@ == (if r == Answer::Confirmed {
            Seq::<Task>::empty()
        } else {
            old(tasks)@
        }),
{
    let r = read_answer(answer);
    if r == Answer::Confirmed {
        clear_tasks(tasks);
    }
    r
}

} // verus!
