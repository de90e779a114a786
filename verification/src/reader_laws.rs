//! What is read for good and what only waits for more input: a form that
//! is read, and a failure that is not the incomplete signal, stay what
//! they are whatever tokens follow.

use vstd::prelude::*;
use crate::reader::{ahead, incomplete, missing_form, read_form_spec, read_seq_spec};
use crate::stream::{is_incomplete, parse_spec};
use crate::types::Val;

verus! {

/// Whether a reading is settled: a form, or a failure that more input cannot mend.
pub open spec fn settled_reading(r: Result<Val, Val>) -> bool {
    match r {
        Ok(_) => true,
        Err(e) => !is_incomplete(e),
    }
}

/// Whether a reading of a sequence is settled.
pub open spec fn settled_seq(r: Result<Seq<Val>, Val>) -> bool {
    match r {
        Ok(_) => true,
        Err(e) => !is_incomplete(e),
    }
}

/// The failure of reading where a closing bracket or quote is missing
/// says that the input is incomplete.
pub proof fn lemma_missing_end_is_incomplete(end: Seq<char>)
    ensures
        is_incomplete(Val::Str(incomplete(end))),
{
    reveal_strlit("INCOMPLETE:expected '");
    reveal_strlit("INCOMPLETE:");
    let a = "INCOMPLETE:expected '"@;
    let m = incomplete(end);
    let p = "INCOMPLETE:"@;
    assert(p.len() == 11);
    assert(a.len() == 21);
    assert forall|i: int| 0 <= i < 11 implies m.subrange(0, 11)[i] == p[i] by {
        assert(m[i] == a[i]);
    }
    assert(m.subrange(0, 11) =~= p);
}

/// The failure of reading where a form is missing says that the input is incomplete.
pub proof fn lemma_missing_form_is_incomplete()
    ensures
        is_incomplete(Val::Str(missing_form())),
{
    reveal_strlit("INCOMPLETE:expected form, got EOF");
    reveal_strlit("INCOMPLETE:");
    let m = missing_form();
    let p = "INCOMPLETE:"@;
    assert(p.len() == 11);
    assert(m.len() == 33);
    assert(m.subrange(0, 11) =~= p);
}

/// A form that is read ends behind the place where it begins, and within the tokens.
pub proof fn lemma_read_bounds(tokens: Seq<Seq<char>>, pos: int)
    requires
        0 <= pos,
    ensures
        read_form_spec(tokens, pos).0 is Ok ==> pos < read_form_spec(tokens, pos).1
            <= tokens.len(),
    decreases tokens.len() - pos, 1nat,
{
    if pos < tokens.len() {
        let t = tokens[pos];
        if t == "'"@ {
            lemma_read_bounds(tokens, pos + 1);
        } else if t == "`"@ {
            lemma_read_bounds(tokens, pos + 1);
        } else if t == "~"@ {
            lemma_read_bounds(tokens, pos + 1);
        } else if t == "~@"@ {
            lemma_read_bounds(tokens, pos + 1);
        } else if t == "^"@ {
            lemma_read_bounds(tokens, pos + 1);
            let m = read_form_spec(tokens, pos + 1);
            if m.0 is Ok {
                lemma_read_bounds(tokens, ahead(tokens.len() as int, pos, m.1));
            }
        } else if t == "@"@ {
            lemma_read_bounds(tokens, pos + 1);
        } else if t == ")"@ {
        } else if t == "("@ {
            lemma_read_seq_bounds(tokens, pos + 1, ")"@, Seq::empty());
        } else if t == "]"@ {
        } else if t == "["@ {
            lemma_read_seq_bounds(tokens, pos + 1, "]"@, Seq::empty());
        } else if t == "}"@ {
        } else if t == "{"@ {
            lemma_read_seq_bounds(tokens, pos + 1, "}"@, Seq::empty());
        } else {
        }
    }
}

/// The forms up to a closing bracket end behind the place where they begin, and within the tokens.
pub proof fn lemma_read_seq_bounds(
    tokens: Seq<Seq<char>>,
    pos: int,
    end: Seq<char>,
    acc: Seq<Val>,
)
    requires
        0 <= pos,
    ensures
        read_seq_spec(tokens, pos, end, acc).0 is Ok ==> pos < read_seq_spec(
            tokens,
            pos,
            end,
            acc,
        ).1 <= tokens.len(),
    decreases tokens.len() - pos, 2nat,
{
    if pos < tokens.len() && tokens[pos] != end {
        lemma_read_bounds(tokens, pos);
        let r = read_form_spec(tokens, pos);
        match r.0 {
            Ok(v) => {
                lemma_read_seq_bounds(
                    tokens,
                    ahead(tokens.len() as int, pos, r.1),
                    end,
                    acc.push(v),
                );
            },
            Err(_) => {},
        }
    }
}

/// A reading that is settled does not depend on the tokens that follow:
/// a form that is read stays that form, and a failure that is not the
/// incomplete signal stays that failure, whatever tokens come behind.
/// Only an incomplete reading can still turn into something else.
pub proof fn law_settled_reading_is_final(tokens: Seq<Seq<char>>, more: Seq<Seq<char>>, pos: int)
    requires
        0 <= pos,
    ensures
        settled_reading(read_form_spec(tokens, pos).0) ==> read_form_spec(tokens + more, pos)
            == read_form_spec(tokens, pos),
    decreases tokens.len() - pos, 1nat,
{
    let all = tokens + more;
    lemma_missing_form_is_incomplete();
    if pos < tokens.len() && settled_reading(read_form_spec(tokens, pos).0) {
        let t = tokens[pos];
        assert(all[pos] == t);
        if t == "'"@ {
            law_settled_reading_is_final(tokens, more, pos + 1);
        } else if t == "`"@ {
            law_settled_reading_is_final(tokens, more, pos + 1);
        } else if t == "~"@ {
            law_settled_reading_is_final(tokens, more, pos + 1);
        } else if t == "~@"@ {
            law_settled_reading_is_final(tokens, more, pos + 1);
        } else if t == "^"@ {
            law_settled_reading_is_final(tokens, more, pos + 1);
            let m = read_form_spec(tokens, pos + 1);
            if m.0 is Ok {
                lemma_read_bounds(tokens, pos + 1);
                let at = ahead(tokens.len() as int, pos, m.1);
                assert(at == ahead(all.len() as int, pos, m.1));
                law_settled_reading_is_final(tokens, more, at);
            }
        } else if t == "@"@ {
            law_settled_reading_is_final(tokens, more, pos + 1);
        } else if t == ")"@ {
        } else if t == "("@ {
            lemma_settled_seq_is_final(tokens, more, pos + 1, ")"@, Seq::empty());
        } else if t == "]"@ {
        } else if t == "["@ {
            lemma_settled_seq_is_final(tokens, more, pos + 1, "]"@, Seq::empty());
        } else if t == "}"@ {
        } else if t == "{"@ {
            lemma_settled_seq_is_final(tokens, more, pos + 1, "}"@, Seq::empty());
        } else {
        }
    }
}

/// The forms up to a closing bracket, where their reading is settled, do
/// not depend on the tokens that follow.
pub proof fn lemma_settled_seq_is_final(
    tokens: Seq<Seq<char>>,
    more: Seq<Seq<char>>,
    pos: int,
    end: Seq<char>,
    acc: Seq<Val>,
)
    requires
        0 <= pos,
    ensures
        settled_seq(read_seq_spec(tokens, pos, end, acc).0) ==> read_seq_spec(
            tokens + more,
            pos,
            end,
            acc,
        ) == read_seq_spec(tokens, pos, end, acc),
    decreases tokens.len() - pos, 2nat,
{
    let all = tokens + more;
    lemma_missing_end_is_incomplete(end);
    if pos < tokens.len() && settled_seq(read_seq_spec(tokens, pos, end, acc).0) {
        assert(all[pos] == tokens[pos]);
        if tokens[pos] != end {
            law_settled_reading_is_final(tokens, more, pos);
            let r = read_form_spec(tokens, pos);
            match r.0 {
                Ok(v) => {
                    lemma_read_bounds(tokens, pos);
                    let at = ahead(tokens.len() as int, pos, r.1);
                    assert(at == ahead(all.len() as int, pos, r.1));
                    lemma_settled_seq_is_final(tokens, more, at, end, acc.push(v));
                },
                Err(_) => {},
            }
        }
    }
}

/// What a stream hands out for the tokens that it has gathered, it would
/// hand out whatever tokens were still to follow.
pub proof fn law_parsed_is_final(tokens: Seq<Seq<char>>, more: Seq<Seq<char>>)
    requires
        parse_spec(tokens) is Some,
    ensures
        parse_spec(tokens + more) == parse_spec(tokens),
{
    law_settled_reading_is_final(tokens, more, 0);
}

/// Tokens that end where a form or a closing bracket is expected are
/// incomplete: the failure is the incomplete signal, not a failure for good.
pub proof fn law_running_out_is_incomplete(
    tokens: Seq<Seq<char>>,
    pos: int,
    end: Seq<char>,
    acc: Seq<Val>,
)
    requires
        pos >= tokens.len(),
    ensures
        read_form_spec(tokens, pos).0 == Err::<Val, Val>(Val::Str(missing_form())),
        read_seq_spec(tokens, pos, end, acc).0 == Err::<Seq<Val>, Val>(Val::Str(incomplete(end))),
        !settled_reading(read_form_spec(tokens, pos).0),
        !settled_seq(read_seq_spec(tokens, pos, end, acc).0),
{
    lemma_missing_end_is_incomplete(end);
    lemma_missing_form_is_incomplete();
}

} // verus!
