use vstd::prelude::*;
use vstd::string::StringExecFns;
use crate::tree::{RecModel, SyntaxTree, WalkRecord};

verus! {

/// The decimal digit character for `d`.
pub open spec fn digit_char(d: nat) -> char {
    if d == 0 {
        '0'
    } else if d == 1 {
        '1'
    } else if d == 2 {
        '2'
    } else if d == 3 {
        '3'
    } else if d == 4 {
        '4'
    } else if d == 5 {
        '5'
    } else if d == 6 {
        '6'
    } else if d == 7 {
        '7'
    } else if d == 8 {
        '8'
    } else {
        '9'
    }
}

/// The decimal digits of `n`, most significant first.
pub open spec fn dec_digits(n: nat) -> Seq<char>
    decreases n,
{
    if n < 10 {
        seq![digit_char(n)]
    } else {
        dec_digits(n / 10) + seq![digit_char(n % 10)]
    }
}

/// A run of `2 * depth` spaces: the indentation of one output line.
pub open spec fn indent_chars(depth: nat) -> Seq<char>
    decreases depth,
{
    if depth == 0 {
        Seq::empty()
    } else {
        indent_chars((depth - 1) as nat) + seq![' ', ' ']
    }
}

/// The one output line that a walk record renders to: the node's kind and
/// its 1-based position, indented two spaces per depth level.
pub open spec fn line_chars(m: RecModel) -> Seq<char> {
    indent_chars(m.depth) + m.kind + " ["@ + dec_digits(m.row) + ":"@ + dec_digits(m.col) + "]"@
}

/// The fixed single-digit string for `d`.
fn digit_str(d: u64) -> (r: &'static str)
    requires
        d < 10,
    ensures
        r@ == seq![digit_char(d as nat)],
{
    proof {
        reveal_strlit("0");
        reveal_strlit("1");
        reveal_strlit("2");
        reveal_strlit("3");
        reveal_strlit("4");
        reveal_strlit("5");
        reveal_strlit("6");
        reveal_strlit("7");
        reveal_strlit("8");
        reveal_strlit("9");
        assert("0"@ =~= seq![digit_char(0)]);
        assert("1"@ =~= seq![digit_char(1)]);
        assert("2"@ =~= seq![digit_char(2)]);
        assert("3"@ =~= seq![digit_char(3)]);
        assert("4"@ =~= seq![digit_char(4)]);
        assert("5"@ =~= seq![digit_char(5)]);
        assert("6"@ =~= seq![digit_char(6)]);
        assert("7"@ =~= seq![digit_char(7)]);
        assert("8"@ =~= seq![digit_char(8)]);
        assert("9"@ =~= seq![digit_char(9)]);
    }
    match d {
        0 => "0",
        1 => "1",
        2 => "2",
        3 => "3",
        4 => "4",
        5 => "5",
        6 => "6",
        7 => "7",
        8 => "8",
        _ => "9",
    }
}

/// Appends the decimal rendering of `n`, most significant digit first.
fn append_decimal(out: &mut String, n: u64)
    ensures
        final(out)@ == old(out)@ + dec_digits(n as nat),
    decreases n,
{
    if n >= 10 {
        append_decimal(out, n / 10);
        out.append(digit_str(n % 10));
        proof {
            assert(out@ =~= old(out)@ + dec_digits(n as nat));
        }
    } else {
        out.append(digit_str(n));
        proof {
            assert(out@ =~= old(out)@ + dec_digits(n as nat));
        }
    }
}

/// Renders one walk record as its output line.
pub fn render_line(rec: &WalkRecord) -> (r: String)
    ensures
        r@ == line_chars(rec@),
{
    let mut line = String::new();
    let mut dd: usize = 0;
    while dd < rec.depth
        invariant
            0 <= dd <= rec.depth,
            line@ == indent_chars(dd as nat),
        decreases rec.depth - dd,
    {
        line.append("  ");
        proof {
            reveal_strlit("  ");
            assert("  "@ =~= seq![' ', ' ']);
            assert(line@ =~= indent_chars((dd + 1) as nat));
        }
        dd += 1;
    }
    line.append(rec.kind.as_str());
    line.append(" [");
    append_decimal(&mut line, rec.row);
    line.append(":");
    append_decimal(&mut line, rec.col);
    line.append("]");
    proof {
        assert(line@ =~= line_chars(rec@));
    }
    line
}

/// Renders a whole walk, one line per record, in walk order. Rendering is a
/// pure function of the records, so identical walks render to byte-identical
/// line sequences.
pub fn render_lines(records: &Vec<WalkRecord>) -> (r: Vec<String>)
    ensures
        r@.len() == records@.len(),
        forall|i: int| 0 <= i < r@.len() ==> #[trigger] r@[i]@ == line_chars(records@[i]@),
{
    let mut out: Vec<String> = Vec::new();
    let mut i: usize = 0;
    while i < records.len()
        invariant
            0 <= i <= records@.len(),
            out@.len() == i,
            forall|k: int| 0 <= k < i ==> #[trigger] out@[k]@ == line_chars(records@[k]@),
        decreases records@.len() - i,
    {
        out.push(render_line(&records[i]));
        i += 1;
    }
    out
}

/// Law: the printed output is a pure function of the tree. Walking the same
/// tree twice yields the same record models, so the rendered line sequences
/// are identical, byte for byte.
pub proof fn lemma_rendered_walk_deterministic(t: SyntaxTree, m1: Seq<RecModel>, m2: Seq<RecModel>)
    requires
        m1 == t.preorder(),
        m2 == t.preorder(),
    ensures
        m1.map_values(|m: RecModel| line_chars(m)) == m2.map_values(|m: RecModel| line_chars(m)),
{
}

} // verus!
