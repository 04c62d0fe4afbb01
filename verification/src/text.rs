//! Text in characters: cutting it to a budget, joining pieces, comparing.

use vstd::prelude::*;

verus! {

/// `s` cut to `max` characters, with an ellipsis where something was cut off.
pub open spec fn truncated(s: Seq<char>, max: nat) -> Seq<char> {
    if s.len() <= max {
        s
    } else {
        s.take(max as int).push('…')
    }
}

/// Truncate to a character budget, appending an ellipsis when cut.
pub fn truncate(s: &str, max: usize) -> (out: String)
    ensures
        out@ == truncated(s@, max as nat),
{
    if s.unicode_len() <= max {
        return s.to_string();
    }
    let mut out: String = s.substring_char(0, max).to_string();
    out.append("…");
    proof {
        reveal_strlit("…");
        assert("…"@ =~= seq!['…']);
        assert(out@ =~= s@.take(max as int).push('…'));
    }
    out
}

/// A cut text is a prefix of the text, as long as the budget, and an ellipsis; a
/// text within its budget is left as it is.
pub proof fn truncation_keeps_a_prefix(s: Seq<char>, max: nat)
    ensures
        truncated(s, max).len() <= max + 1,
        s.len() <= max ==> truncated(s, max) == s,
        s.len() > max ==> truncated(s, max).drop_last() == s.take(max as int) && truncated(
            s,
            max,
        ).last() == '…',
{
    if s.len() > max {
        assert(s.take(max as int).push('…').drop_last() =~= s.take(max as int));
    }
}

/// Cutting a text to the same budget again changes nothing.
pub proof fn truncation_is_idempotent(s: Seq<char>, max: nat)
    ensures
        truncated(truncated(s, max), max) == truncated(s, max),
{
    if s.len() > max {
        assert(truncated(s, max).take(max as int) =~= s.take(max as int));
    }
}

/// The pieces one after another, with `sep` between any two neighbours.
pub open spec fn joined(pieces: Seq<Seq<char>>, sep: Seq<char>) -> Seq<char>
    decreases pieces.len(),
{
    if pieces.len() == 0 {
        Seq::empty()
    } else if pieces.len() == 1 {
        pieces[0]
    } else {
        joined(pieces.drop_last(), sep) + sep + pieces.last()
    }
}

/// Joining is putting pieces in a row: one piece alone is left as it is, and two groups
/// of pieces are joined by joining what each gives.
pub proof fn joining_puts_pieces_in_a_row(
    a: Seq<Seq<char>>,
    b: Seq<Seq<char>>,
    piece: Seq<char>,
    sep: Seq<char>,
)
    ensures
        joined(Seq::empty(), sep) == Seq::<char>::empty(),
        joined(seq![piece], sep) == piece,
        a.len() > 0 && b.len() > 0 ==> joined(a + b, sep) == joined(a, sep) + sep + joined(b, sep),
    decreases b.len(),
{
    if a.len() > 0 && b.len() > 0 {
        assert((a + b).drop_last() =~= a + b.drop_last());
        assert((a + b).last() == b.last());
        if b.len() == 1 {
            assert(a + b.drop_last() =~= a);
            assert(b.last() == b[0]);
        } else {
            joining_puts_pieces_in_a_row(a, b.drop_last(), piece, sep);
            assert(joined(a + b, sep) =~= joined(a, sep) + sep + joined(b, sep));
        }
    }
}

/// Whether a string reads as the given text.
pub(crate) fn reads(s: &String, text: &str) -> (same: bool)
    ensures
        same == (s@ == text@),
{
    let other: String = text.to_string();
    *s == other
}

} // verus!
