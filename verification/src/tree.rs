//! How a list of items under a heading is drawn as one branch of a tree.

use vstd::prelude::*;
use vstd::string::*;
use crate::text::texts;

verus! {

/// The line of one item. `edge` continues the trunk of the tree to the left of the line;
/// the last item of a branch closes the branch.
pub open spec fn entry_line(edge: Seq<char>, last: bool, item: Seq<char>) -> Seq<char> {
    edge + "    "@ + (if last {
        "└"@
    } else {
        "├"@
    }) + "─── "@ + item + "\n"@
}

/// The lines of the first `n` items.
pub open spec fn entry_lines(items: Seq<Seq<char>>, edge: Seq<char>, n: int) -> Seq<char>
    decreases n,
{
    if n <= 0 {
        Seq::empty()
    } else {
        entry_lines(items, edge, n - 1) + entry_line(edge, n == items.len(), items[n - 1])
    }
}

/// A branch: the line of its heading, hung on the trunk by `joint`, and the lines of its
/// items. Without items there is no branch.
pub open spec fn branch_text(
    items: Seq<Seq<char>>,
    edge: Seq<char>,
    joint: Seq<char>,
    heading: Seq<char>,
) -> Seq<char> {
    if items.len() == 0 {
        Seq::empty()
    } else {
        joint + "─── "@ + heading + "\n"@ + entry_lines(items, edge, items.len() as int)
    }
}

/// Appends a branch to `out`.
pub fn write_branch(out: &mut String, items: &Vec<String>, edge: &str, joint: &str, heading: &str)
    ensures
        final(out)@ == old(out)@ + branch_text(texts(items@), edge@, joint@, heading@),
{
    let ghost before = out@;
    let ghost all = texts(items@);
    let n = items.len();
    if n == 0 {
        assert(out@ =~= before + branch_text(all, edge@, joint@, heading@));
        return ;
    }
    out.append(joint);
    out.append("─── ");
    out.append(heading);
    out.append("\n");
    let ghost head = joint@ + "─── "@ + heading@ + "\n"@;
    assert(out@ =~= before + head + entry_lines(all, edge@, 0));
    let mut i: usize = 0;
    while i < n
        invariant
            n == items.len(),
            all == texts(items@),
            i <= n,
            out@ == before + head + entry_lines(all, edge@, i as int),
        decreases n - i,
    {
        let ghost prev = out@;
        out.append(edge);
        out.append("    ");
        if i + 1 == n {
            out.append("└");
        } else {
            out.append("├");
        }
        out.append("─── ");
        out.append(items[i].as_str());
        out.append("\n");
        i += 1;
        assert(out@ =~= prev + entry_line(edge@, i == n, all[i - 1]));
        assert(out@ =~= before + head + entry_lines(all, edge@, i as int));
    }
    assert(out@ =~= before + branch_text(all, edge@, joint@, heading@));
}

} // verus!
