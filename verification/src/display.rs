//! What the scoreboard shows, as text.
use vstd::prelude::*;
use vstd::string::{StrSliceExecFns, StringExecFns};

use crate::data::PlayerStatus;
use crate::text::{decimal_text, i32_text, signed_decimal_text, usize_text};

verus! {

/// Appends a character to a text, with `String::push`.
#[verifier::external_body]
fn push_char(s: &mut String, c: char)
    ensures
        final(s)@ == old(s)@.push(c),
{
    s.push(c);
}

/// What the `i`-th character of a text becomes when the text is wrapped
/// every `width` characters: at each wrap a line break and an indent of five
/// spaces come first.
pub open spec fn wrapped_char(i: int, c: char, width: int) -> Seq<char> {
    if i != 0 && i % width == 0 {
        "\n     "@.push(c)
    } else {
        seq![c]
    }
}

/// A text wrapped every `width` characters.
pub open spec fn wrapped_text(s: Seq<char>, width: int) -> Seq<char>
    decreases s.len(),
{
    if s.len() == 0 {
        Seq::empty()
    } else {
        wrapped_text(s.drop_last(), width) + wrapped_char(s.len() - 1, s.last(), width)
    }
}

/// Wraps a text every `width` characters, for the question panel.
pub fn wrap_text(text: &str, width: usize) -> (r: String)
    requires
        width > 0 || text@.len() <= 1,
    ensures
        r@ == wrapped_text(text@, width as int),
{
    let mut r = String::new();
    let len = text.unicode_len();
    let mut i: usize = 0;
    for c in it: text.chars()
        invariant
            it.seq() == text@,
            len == text@.len(),
            i == it.index(),
            width > 0 || text@.len() <= 1,
            r@ == wrapped_text(text@.take(i as int), width as int),
    {
        assert(text@.take(i as int + 1).drop_last() == text@.take(i as int));
        assert(text@[i as int] == c);
        if i != 0 && i % width == 0 {
            r.append("\n     ");
            push_char(&mut r, c);
        } else {
            push_char(&mut r, c);
        }
        i += 1;
    }
    assert(text@.take(i as int) == text@);
    r
}

/// The English ordinal suffix of a number: 1st, 2nd, 3rd, 4th, 11th, 21st...
pub open spec fn ordinal_suffix_text(n: usize) -> Seq<char> {
    if n % 10 == 1 && n % 100 != 11 {
        "st"@
    } else if n % 10 == 2 && n % 100 != 12 {
        "nd"@
    } else if n % 10 == 3 && n % 100 != 13 {
        "rd"@
    } else {
        "th"@
    }
}

/// The ordinal suffix shown after a player's number.
pub fn ordinal_suffix(n: usize) -> (s: &'static str)
    ensures
        s@ == ordinal_suffix_text(n),
{
    if n % 10 == 1 && n % 100 != 11 {
        "st"
    } else if n % 10 == 2 && n % 100 != 12 {
        "nd"
    } else if n % 10 == 3 && n % 100 != 13 {
        "rd"
    } else {
        "th"
    }
}

/// What a player's score card says: the score, and below it the win or
/// elimination and the finishing rank when there is one.
pub open spec fn score_caption_text(s: PlayerStatus) -> Seq<char> {
    let score = signed_decimal_text(s.score as int);
    match s.finish_rank {
        Some(rank) => {
            let rank_text = decimal_text(rank as nat);
            if s.is_winner {
                score + "\n(Win! #"@ + rank_text + ")"@
            } else if s.is_eliminated {
                score + "\n(Elim #"@ + rank_text + ")"@
            } else {
                score + "\n(Rnk  #"@ + rank_text + ")"@
            }
        },
        None => if s.is_winner {
            score + "\n(Win!)    "@
        } else if s.is_eliminated {
            score + "\n(Elim)    "@
        } else {
            score
        },
    }
}

/// The text of a player's score card, and whether it is shown in the small
/// font (it is whenever there is more than the score to show).
pub fn score_caption(s: &PlayerStatus) -> (r: (String, bool))
    ensures
        r.0@ == score_caption_text(*s),
        r.1 == (s.finish_rank is Some || s.is_winner || s.is_eliminated),
{
    let score = i32_text(s.score);
    match s.finish_rank {
        Some(rank) => {
            let rank_text = usize_text(rank as usize);
            let text = if s.is_winner {
                score.concat("\n(Win! #")
            } else if s.is_eliminated {
                score.concat("\n(Elim #")
            } else {
                score.concat("\n(Rnk  #")
            };
            (text.concat(rank_text.as_str()).concat(")"), true)
        },
        None => if s.is_winner {
            (score.concat("\n(Win!)    "), true)
        } else if s.is_eliminated {
            (score.concat("\n(Elim)    "), true)
        } else {
            (score, false)
        },
    }
}

} // verus!
