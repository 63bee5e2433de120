use vstd::prelude::*;

use crate::task::{Task, ids_unique};

verus! {

/// Width of the description column.
pub const WIDTH: usize = 30;

/// `n` spaces.
pub open spec fn spaces(n: nat) -> Seq<char> {
    Seq::new(n, |i: int| ' ')
}

/// What separates two pieces of a wrapped description: a line break and five spaces of indent.
pub open spec fn continuation() -> Seq<char> {
    seq!['\n', ' ', ' ', ' ', ' ', ' ']
}

/// A description laid out in the description column: cut every 30 characters, each later piece
/// on a new line indented by five spaces, and the last piece padded with spaces to 30 characters.
pub open spec fn wrapped(s: Seq<char>) -> Seq<char>
    decreases s.len(),
{
    if s.len() > 30 {
        s.subrange(0, 30) + continuation() + wrapped(s.subrange(30, s.len() as int))
    } else {
        s + spaces((30 - s.len()) as nat)
    }
}

/// Appends `n` spaces.
fn push_spaces(out: &mut String, n: usize)
    ensures
        final(out)@ == old(out)@ + spaces(n as nat),
{
    let mut k: usize = 0;
    while k < n
        invariant
            k <= n,
            out@ == old(out)@ + spaces(k as nat),
        decreases n - k,
    {
        proof {
            reveal_strlit(" ");
        }
        out.append(" ");
        assert(out@ =~= old(out)@ + spaces((k + 1) as nat));
        k = k + 1;
    }
}

/// Lays a description out in the description column (see `wrapped`).
pub fn wrap(desc: &str) -> (r: String)
    ensures
        r@ == wrapped(desc@),
{
    let n = desc.unicode_len();
    let mut out = String::new();
    let mut pos: usize = 0;
    assert(desc@.subrange(0, n as int) =~= desc@);
    assert(out@ + wrapped(desc@) =~= wrapped(desc@));
    while n - pos > WIDTH
        invariant
            n == desc@.len(),
            pos <= n,
            out@ + wrapped(desc@.subrange(pos as int, n as int)) == wrapped(desc@),
        decreases n - pos,
    {
        let ghost rest = desc@.subrange(pos as int, n as int);
        let ghost before = out@;
        assert(rest.subrange(0, 30) =~= desc@.subrange(pos as int, pos + 30));
        assert(rest.subrange(30, rest.len() as int) =~= desc@.subrange(pos + 30, n as int));
        out.append(desc.substring_char(pos, pos + WIDTH));
        proof {
            reveal_strlit("\n     ");
        }
        out.append("\n     ");
        assert("\n     "@ =~= continuation());
        let ghost after = desc@.subrange(pos + 30, n as int);
        assert(out@ + wrapped(after) =~= before + wrapped(rest));
        pos = pos + WIDTH;
    }
    out.append(desc.substring_char(pos, n));
    push_spaces(&mut out, WIDTH - (n - pos));
    out
}

/// In the listing, the task at position `i` of the store comes before the one at `j`: ordered
/// by completion first where `by_status` holds (tasks not done first), then by ascending id,
/// and, for equal ids, by position in the store.
pub open spec fn precedes(s: Seq<Task>, by_status: bool, i: int, j: int) -> bool {
    if by_status && s[i].done != s[j].done {
        !s[i].done
    } else if s[i].id != s[j].id {
        s[i].id < s[j].id
    } else {
        i < j
    }
}

/// `ord` lists every position of the store once, in the order of `precedes`.
pub open spec fn is_display_order(s: Seq<Task>, by_status: bool, ord: Seq<usize>) -> bool {
    &&& ord.len() == s.len()
    &&& forall|k: int| 0 <= k < ord.len() ==> ord[k] < s.len()
    &&& forall|x: usize| x < s.len() ==> #[trigger] ord.contains(x)
    &&& forall|a: int, b: int|
        0 <= a < b < ord.len() ==> precedes(s, by_status, #[trigger] ord[a] as int, #[trigger] ord[b] as int)
}

/// `precedes` is a strict total order on the positions of a store.
pub proof fn lemma_precedes_total(s: Seq<Task>, by_status: bool, i: int, j: int, l: int)
    ensures
        !precedes(s, by_status, i, i),
        i != j ==> precedes(s, by_status, i, j) || precedes(s, by_status, j, i),
        precedes(s, by_status, i, j) ==> !precedes(s, by_status, j, i),
        precedes(s, by_status, i, j) && precedes(s, by_status, j, l) ==> precedes(s, by_status, i, l),
{
}

fn comes_before(tasks: &Vec<Task>, by_status: bool, i: usize, j: usize) -> (r: bool)
    requires
        i < tasks@.len(),
        j < tasks@.len(),
    ensures
        r == precedes(tasks@, by_status, i as int, j as int),
{
    if by_status && tasks[i].done != tasks[j].done {
        !tasks[i].done
    } else if tasks[i].id != tasks[j].id {
        tasks[i].id < tasks[j].id
    } else {
        i < j
    }
}

/// The positions of the store's tasks in the order in which they are listed.
pub fn display_order(tasks: &Vec<Task>, by_status: bool) -> (ord: Vec<usize>)
    ensures
        is_display_order(tasks@, by_status, ord@),
{
    let n = tasks.len();
    let mut ord: Vec<usize> = Vec::new();
    let mut k: usize = 0;
    while k < n
        invariant
            n == tasks@.len(),
            k <= n,
            ord@.len() == k,
            forall|a: int| 0 <= a < ord@.len() ==> ord@[a] < k,
            forall|x: usize| x < k ==> #[trigger] ord@.contains(x),
            forall|a: int, b: int|
                0 <= a < b < ord@.len() ==> precedes(tasks@, by_status, #[trigger] ord@[a] as int, #[trigger] ord@[b] as int),
        decreases n - k,
    {
        let mut p: usize = 0;
        while p < ord.len() && comes_before(tasks, by_status, ord[p], k)
            invariant
                n == tasks@.len(),
                k < n,
                p <= ord@.len(),
                forall|a: int| 0 <= a < ord@.len() ==> ord@[a] < k,
                forall|a: int| 0 <= a < p ==> precedes(tasks@, by_status, #[trigger] ord@[a] as int, k as int),
            decreases ord@.len() - p,
        {
            p = p + 1;
        }
        let ghost old_ord = ord@;
        proof {
            if p < old_ord.len() {
                lemma_precedes_total(tasks@, by_status, k as int, old_ord[p as int] as int, 0);
                assert forall|b: int| p <= b < old_ord.len() implies precedes(tasks@, by_status, k as int, #[trigger] old_ord[b] as int) by {
                    if b > p {
                        assert(precedes(tasks@, by_status, old_ord[p as int] as int, old_ord[b] as int));
                        lemma_precedes_total(tasks@, by_status, k as int, old_ord[p as int] as int, old_ord[b] as int);
                    }
                }
            }
        }
        ord.insert(p, k);
        proof {
            assert forall|x: usize| x < k + 1 implies #[trigger] ord@.contains(x) by {
                if x == k {
                    assert(ord@[p as int] == x);
                } else {
                    assert(old_ord.contains(x));
                    let w = choose|w: int| 0 <= w < old_ord.len() && old_ord[w] == x;
                    if w < p {
                        assert(ord@[w] == x);
                    } else {
                        assert(ord@[w + 1] == x);
                    }
                }
            }
            assert forall|a: int, b: int|
                0 <= a < b < ord@.len() implies precedes(tasks@, by_status, #[trigger] ord@[a] as int, #[trigger] ord@[b] as int) by {
                if b < p {
                    assert(ord@[a] == old_ord[a] && ord@[b] == old_ord[b]);
                } else if b == p {
                    assert(ord@[a] == old_ord[a]);
                } else if a < p {
                    assert(ord@[a] == old_ord[a] && ord@[b] == old_ord[b - 1]);
                } else if a == p {
                    assert(ord@[b] == old_ord[b - 1]);
                } else {
                    assert(ord@[a] == old_ord[a - 1] && ord@[b] == old_ord[b - 1]);
                }
            }
        }
        k = k + 1;
    }
    ord
}

/// Listing by id alone puts the tasks in ascending id order, strictly so where ids are distinct.
pub proof fn lemma_listing_by_id(s: Seq<Task>, ord: Seq<usize>)
    requires
        is_display_order(s, false, ord),
    ensures
        forall|a: int, b: int| 0 <= a < b < ord.len() ==> s[#[trigger] ord[a] as int].id <= s[#[trigger] ord[b] as int].id,
        ids_unique(s) ==> forall|a: int, b: int| 0 <= a < b < ord.len() ==> s[#[trigger] ord[a] as int].id < s[#[trigger] ord[b] as int].id,
{
    assert forall|a: int, b: int| 0 <= a < b < ord.len() implies s[#[trigger] ord[a] as int].id <= s[#[trigger] ord[b] as int].id by {
        assert(precedes(s, false, ord[a] as int, ord[b] as int));
    }
    if ids_unique(s) {
        assert forall|a: int, b: int| 0 <= a < b < ord.len() implies s[#[trigger] ord[a] as int].id < s[#[trigger] ord[b] as int].id by {
            assert(precedes(s, false, ord[a] as int, ord[b] as int));
            lemma_precedes_total(s, false, ord[a] as int, ord[b] as int, 0);
        }
    }
}

/// Listing by status puts every task not done before every task done, and within each of the
/// two groups orders the tasks by ascending id.
pub proof fn lemma_listing_by_status(s: Seq<Task>, ord: Seq<usize>)
    requires
        is_display_order(s, true, ord),
    ensures
        forall|a: int, b: int| 0 <= a < b < ord.len() && s[#[trigger] ord[a] as int].done ==> s[#[trigger] ord[b] as int].done,
        forall|a: int, b: int| 0 <= a < b < ord.len() && s[#[trigger] ord[a] as int].done == s[#[trigger] ord[b] as int].done
            ==> s[ord[a] as int].id <= s[ord[b] as int].id,
{
    assert forall|a: int, b: int| 0 <= a < b < ord.len() && s[#[trigger] ord[a] as int].done implies s[#[trigger] ord[b] as int].done by {
        assert(precedes(s, true, ord[a] as int, ord[b] as int));
    }
    assert forall|a: int, b: int| 0 <= a < b < ord.len() && s[#[trigger] ord[a] as int].done == s[#[trigger] ord[b] as int].done
        implies s[ord[a] as int].id <= s[ord[b] as int].id by {
        assert(precedes(s, true, ord[a] as int, ord[b] as int));
    }
}

/// The decimal digits of `n`, most significant first.
pub open spec fn decimal(n: nat) -> Seq<char>
    decreases n,
{
    if n < 10 {
        seq![((n + 48) as u8) as char]
    } else {
        decimal(n / 10).push((((n % 10) + 48) as u8) as char)
    }
}

/// Relies on `usize`'s `Display` (through `to_string`): an integer is written as its decimal
/// digits, with no sign and no leading zeros.
#[verifier::external_body]
fn decimal_text(n: usize) -> (r: String)
    ensures
        r@ == decimal(n as nat),
{
    n.to_string()
}

/// `s` padded on the right with spaces to at least `w` characters.
pub open spec fn padded(s: Seq<char>, w: nat) -> Seq<char> {
    if s.len() < w {
        s + spaces((w - s.len()) as nat)
    } else {
        s
    }
}

/// The marker of a task's completion: `:)` when done, `:(` otherwise.
pub open spec fn marker(done: bool) -> Seq<char> {
    if done {
        seq![':', ')']
    } else {
        seq![':', '(']
    }
}

/// One listed task: its id padded to four characters, a space, the wrapped description, a
/// space and the completion marker.
pub open spec fn row_text(t: Task) -> Seq<char> {
    padded(decimal(t.id as nat), 4) + seq![' '] + wrapped(t.desc@) + seq![' '] + marker(t.done)
}

/// The text of one listed task (see `row_text`).
pub fn row(t: &Task) -> (r: String)
    ensures
        r@ == row_text(*t),
{
    let mut out = decimal_text(t.id);
    let len = out.as_str().unicode_len();
    if len < 4 {
        push_spaces(&mut out, 4 - len);
    }
    proof {
        reveal_strlit(" ");
        reveal_strlit(":)");
        reveal_strlit(":(");
    }
    out.append(" ");
    let w = wrap(t.desc.as_str());
    out.append(w.as_str());
    out.append(" ");
    if t.done {
        out.append(":)");
    } else {
        out.append(":(");
    }
    assert(out@ =~= row_text(*t));
    out
}

/// What listing prints for a store without tasks.
pub open spec fn no_tasks_text() -> Seq<char> {
    seq!['N', 'o', ' ', 't', 'a', 's', 'k', 's', ' ', 'y', 'e', 't', '.']
}

/// The lines that listing prints: a single "no tasks" line for an empty store; otherwise one
/// row per task, in the display order (by completion first where `by_status` holds, then by id).
pub fn list(tasks: &Vec<Task>, by_status: bool) -> (lines: Vec<String>)
    ensures
        tasks@.len() == 0 ==> lines@.len() == 1 && lines@[0]@ == no_tasks_text(),
        tasks@.len() > 0 ==> exists|ord: Seq<usize>|
            #[trigger] is_display_order(tasks@, by_status, ord)
            && lines@.len() == ord.len()
            && forall|k: int| 0 <= k < ord.len() ==> (#[trigger] lines@[k])@ == row_text(tasks@[ord[k] as int]),
{
    let mut lines: Vec<String> = Vec::new();
    if tasks.len() == 0 {
        proof {
            reveal_strlit("No tasks yet.");
        }
        lines.push(String::from_str("No tasks yet."));
        assert(lines@[0]@ =~= no_tasks_text());
        return lines;
    }
    let ord = display_order(tasks, by_status);
    let mut k: usize = 0;
    while k < ord.len()
        invariant
            is_display_order(tasks@, by_status, ord@),
            k <= ord@.len(),
            lines@.len() == k,
            forall|j: int| 0 <= j < k ==> (#[trigger] lines@[j])@ == row_text(tasks@[ord@[j] as int]),
        decreases ord@.len() - k,
    {
        lines.push(row(&tasks[ord[k]]));
        k = k + 1;
    }
    lines
}

} // verus!
