//! Serialization of a layout into publication-diagram markup: one
//! `\filldraw` rectangle per node box, one `\draw` segment per routed
//! line, with an exact character-level specification.
use vstd::prelude::*;
use vstd::string::StringExecFns;
use crate::layout::{Layout, Line, Square};
use crate::text::{append_i64, dec_int};

verus! {

/// The markup of one rectangle.
pub open spec fn spec_square_text(s: Square) -> Seq<char> {
    "\\filldraw[fill=white, draw=black] ("@ + dec_int(s.left as int) + ","@ + dec_int(
        s.upper as int,
    ) + ") rectangle ("@ + dec_int(s.right as int) + ","@ + dec_int(s.lower as int) + ");"@
        + "\n"@
}

/// The markup of one line segment.
pub open spec fn spec_line_text(l: Line) -> Seq<char> {
    "\\draw ("@ + dec_int(l.x1 as int) + ","@ + dec_int(l.y1 as int) + ") -- ("@ + dec_int(
        l.x2 as int,
    ) + ","@ + dec_int(l.y2 as int) + ");"@ + "\n"@
}

/// The markup of a prefix of the rectangle table.
pub open spec fn spec_squares_text(ss: Seq<Square>) -> Seq<char>
    decreases ss.len(),
{
    if ss.len() == 0 {
        Seq::empty()
    } else {
        spec_squares_text(ss.drop_last()) + spec_square_text(ss.last())
    }
}

/// The markup of a prefix of the line table.
pub open spec fn spec_lines_text(ls: Seq<Line>) -> Seq<char>
    decreases ls.len(),
{
    if ls.len() == 0 {
        Seq::empty()
    } else {
        spec_lines_text(ls.drop_last()) + spec_line_text(ls.last())
    }
}

/// The markup of a whole layout: every rectangle, then every line.
pub open spec fn spec_render(squares: Seq<Square>, lines: Seq<Line>) -> Seq<char> {
    spec_squares_text(squares) + spec_lines_text(lines)
}

/// Renders a layout into diagram markup: one filled rectangle per node
/// box, then one drawn segment per routed line, each on its own line of
/// text.
#[verifier::loop_isolation(false)]
#[verifier::rlimit(60)]
pub fn render_file(layout: &Layout) -> (s: String)
    ensures
        s@ == spec_render(layout.squares@, layout.lines@),
{
    let mut out = String::new();
    let mut i: usize = 0;
    while i < layout.squares.len()
        invariant
            i <= layout.squares@.len(),
            out@ == spec_squares_text(layout.squares@.take(i as int)),
        decreases layout.squares@.len() - i,
    {
        let sq = layout.squares[i];
        out.append("\\filldraw[fill=white, draw=black] (");
        append_i64(&mut out, sq.left);
        out.append(",");
        append_i64(&mut out, sq.upper);
        out.append(") rectangle (");
        append_i64(&mut out, sq.right);
        out.append(",");
        append_i64(&mut out, sq.lower);
        out.append(");");
        out.append("\n");
        proof {
            let pref = layout.squares@.take(i as int + 1);
            assert(pref.drop_last() =~= layout.squares@.take(i as int));
            assert(pref.last() == layout.squares@[i as int]);
            assert(out@ =~= spec_squares_text(pref));
        }
        i = i + 1;
    }
    proof {
        assert(layout.squares@.take(layout.squares@.len() as int) =~= layout.squares@);
    }
    let ghost head = out@;
    let mut j: usize = 0;
    while j < layout.lines.len()
        invariant
            j <= layout.lines@.len(),
            out@ == head + spec_lines_text(layout.lines@.take(j as int)),
        decreases layout.lines@.len() - j,
    {
        let ln = layout.lines[j];
        out.append("\\draw (");
        append_i64(&mut out, ln.x1);
        out.append(",");
        append_i64(&mut out, ln.y1);
        out.append(") -- (");
        append_i64(&mut out, ln.x2);
        out.append(",");
        append_i64(&mut out, ln.y2);
        out.append(");");
        out.append("\n");
        proof {
            let pref = layout.lines@.take(j as int + 1);
            assert(pref.drop_last() =~= layout.lines@.take(j as int));
            assert(pref.last() == layout.lines@[j as int]);
            assert(out@ =~= head + spec_lines_text(pref));
        }
        j = j + 1;
    }
    proof {
        assert(layout.lines@.take(layout.lines@.len() as int) =~= layout.lines@);
        assert(out@ =~= spec_render(layout.squares@, layout.lines@));
    }
    out
}

} // verus!
