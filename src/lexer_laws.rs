use vstd::prelude::*;

use crate::lexer::{
    ident_end, initial_state, is_blank, is_ident_char, is_keyword, is_word_operator, lemma_scan,
    lemma_skip_blanks, lex, lex_from, scan, skip_blanks, valid_state, LexError, Lexeme, ScanState,
};
use crate::token::TokenKind;

verus! {

/// What holds of the token `ls[k]` and the one after it.
pub open spec fn adjacent(s: Seq<char>, ls: Seq<Lexeme>, k: int) -> bool {
    &&& ls[k].token.kind != TokenKind::EndOfInput
    &&& ls[k + 1].start == skip_blanks(s, ls[k].end)
    &&& if ls[k].token.kind == TokenKind::NewLine {
        &&& ls[k + 1].token.row == ls[k].token.row + 1
        &&& ls[k + 1].token.col == ls[k + 1].start - ls[k].end
    } else {
        &&& ls[k + 1].token.row == ls[k].token.row
        &&& ls[k + 1].token.col == ls[k].token.col + (ls[k + 1].start - ls[k].start)
    }
}

/// What holds of the token `ls[k]` on its own: its span and its text.
pub open spec fn spans(s: Seq<char>, from: nat, ls: Seq<Lexeme>, k: int) -> bool {
    &&& from <= ls[k].start <= ls[k].end <= s.len()
    &&& ls[k].token.length == ls[k].end - ls[k].start
    &&& ls[k].token.kind != TokenKind::StringLiteral ==> ls[k].token.text == s.subrange(ls[k].start as int, ls[k].end as int)
}

/// What holds of every token sequence read from a reachable state `st`.
pub open spec fn well_formed_from(s: Seq<char>, st: ScanState, ls: Seq<Lexeme>) -> bool {
    &&& ls.len() >= 1
    &&& ls.last().token.kind == TokenKind::EndOfInput
    &&& ls.last().end == s.len()
    &&& ls[0].start == skip_blanks(s, st.cursor)
    &&& ls[0].token.row == st.line
    &&& ls[0].token.col == ls[0].start - st.bol
    &&& forall|k: int| 0 <= k < ls.len() ==> #[trigger] spans(s, st.cursor, ls, k)
    &&& forall|k: int| 0 <= k < ls.len() - 1 ==> #[trigger] adjacent(s, ls, k)
}

proof fn lemma_lex_from(s: Seq<char>, st: ScanState)
    requires
        valid_state(s, st),
    ensures
        lex_from(s, st) matches Ok(ls) ==> well_formed_from(s, st, ls),
    decreases s.len() - st.cursor,
{
    lemma_scan(s, st);
    if let Ok((lx, next)) = scan(s, st) {
        if lx.token.kind != TokenKind::EndOfInput {
            lemma_lex_from(s, next);
            lemma_scan(s, next);
            if let Ok(rest) = lex_from(s, next) {
                let ls = seq![lx] + rest;
                assert(lex_from(s, st) == Ok::<Seq<Lexeme>, LexError>(ls));
                assert forall|k: int| 0 <= k < ls.len() implies #[trigger] spans(s, st.cursor, ls, k) by {
                    if k > 0 {
                        assert(ls[k] == rest[k - 1]);
                        assert(spans(s, next.cursor, rest, k - 1));
                    }
                }
                assert forall|k: int| 0 <= k < ls.len() - 1 implies #[trigger] adjacent(s, ls, k) by {
                    assert(ls[k + 1] == rest[k]);
                    if k > 0 {
                        assert(ls[k] == rest[k - 1]);
                        assert(adjacent(s, rest, k - 1));
                    }
                }
            }
        }
    }
}

/// Tokenizing always comes to an end (`Lexer::tokenize` loops on a measure
/// that every token decreases), and a successful run yields a sequence whose
/// last token, and only that one, marks the end of input.
pub proof fn lemma_ends_with_end_of_input(s: Seq<char>)
    ensures
        lex(s) matches Ok(ls) ==> {
            &&& ls.len() >= 1
            &&& ls.last().token.kind == TokenKind::EndOfInput
            &&& forall|k: int| 0 <= k < ls.len() - 1 ==> (#[trigger] ls[k]).token.kind != TokenKind::EndOfInput
        },
{
    lemma_lex_from(s, initial_state());
    if let Ok(ls) = lex(s) {
        assert forall|k: int| 0 <= k < ls.len() - 1 implies (#[trigger] ls[k]).token.kind != TokenKind::EndOfInput by {
            assert(adjacent(s, ls, k));
        }
    }
}

/// Token rows never decrease along the sequence. The token right after a
/// newline token is on the next row, and its column counts only the blanks
/// that follow the newline: it is zero when none do. Within a row, columns
/// grow with the offsets.
pub proof fn lemma_positions(s: Seq<char>)
    ensures
        lex(s) matches Ok(ls) ==> {
            &&& ls[0].token.row == 0
            &&& forall|k: int| 0 <= k < ls.len() - 1 ==> {
                &&& (#[trigger] ls[k]).token.row <= ls[k + 1].token.row
                &&& ls[k].token.kind == TokenKind::NewLine ==> {
                    &&& ls[k + 1].token.row == ls[k].token.row + 1
                    &&& ls[k + 1].token.col == ls[k + 1].start - ls[k].end
                    &&& ls[k + 1].start == ls[k].end ==> ls[k + 1].token.col == 0
                    &&& forall|j: int| ls[k].end <= j < ls[k + 1].start ==> is_blank(#[trigger] s[j])
                }
                &&& ls[k].token.kind != TokenKind::NewLine ==> {
                    &&& ls[k + 1].token.row == ls[k].token.row
                    &&& ls[k].token.col <= ls[k + 1].token.col
                }
            }
        },
{
    lemma_lex_from(s, initial_state());
    if let Ok(ls) = lex(s) {
        assert forall|k: int| 0 <= k < ls.len() - 1 implies {
            &&& (#[trigger] ls[k]).token.row <= ls[k + 1].token.row
            &&& ls[k].token.kind == TokenKind::NewLine ==> {
                &&& ls[k + 1].token.row == ls[k].token.row + 1
                &&& ls[k + 1].token.col == ls[k + 1].start - ls[k].end
                &&& ls[k + 1].start == ls[k].end ==> ls[k + 1].token.col == 0
                &&& forall|j: int| ls[k].end <= j < ls[k + 1].start ==> is_blank(#[trigger] s[j])
            }
            &&& ls[k].token.kind != TokenKind::NewLine ==> {
                &&& ls[k + 1].token.row == ls[k].token.row
                &&& ls[k].token.col <= ls[k + 1].token.col
            }
        } by {
            assert(adjacent(s, ls, k));
            assert(spans(s, 0, ls, k));
            lemma_skip_blanks(s, ls[k].end);
        }
    }
}

/// Where the blanks before `ls[k]` begin: the start of the text, or the end
/// of the token before it.
pub open spec fn gap_start(ls: Seq<Lexeme>, k: int) -> nat {
    if k == 0 {
        0
    } else {
        ls[k - 1].end
    }
}

/// The text put back together from the tokens, each preceded by the source
/// characters skipped before it.
pub open spec fn rebuilt(s: Seq<char>, ls: Seq<Lexeme>, from: nat) -> Seq<char>
    decreases ls.len(),
{
    if ls.len() == 0 {
        seq![]
    } else {
        s.subrange(from as int, ls[0].start as int) + ls[0].token.text + rebuilt(s, ls.drop_first(), ls[0].end)
    }
}

pub open spec fn has_string_literal(ls: Seq<Lexeme>) -> bool {
    exists|k: int| 0 <= k < ls.len() && (#[trigger] ls[k]).token.kind == TokenKind::StringLiteral
}

proof fn lemma_rebuilt_from(s: Seq<char>, st: ScanState)
    requires
        valid_state(s, st),
    ensures
        lex_from(s, st) matches Ok(ls) ==> (!has_string_literal(ls) ==> rebuilt(s, ls, st.cursor) == s.subrange(st.cursor as int, s.len() as int)),
    decreases s.len() - st.cursor,
{
    lemma_scan(s, st);
    lemma_lex_from(s, st);
    if let Ok((lx, next)) = scan(s, st) {
        if let Ok(ls) = lex_from(s, st) {
            if !has_string_literal(ls) {
                assert(ls[0] == lx);
                assert(spans(s, st.cursor, ls, 0));
                if lx.token.kind == TokenKind::EndOfInput {
                    assert(ls.len() == 1);
                    assert(ls.drop_first() =~= seq![]);
                    assert(rebuilt(s, ls.drop_first(), lx.end) == Seq::<char>::empty());
                    assert(rebuilt(s, ls, st.cursor) =~= s.subrange(st.cursor as int, s.len() as int));
                } else {
                    lemma_rebuilt_from(s, next);
                    let rest = lex_from(s, next)->Ok_0;
                    assert(ls.drop_first() =~= rest);
                    assert forall|k: int| 0 <= k < rest.len() implies (#[trigger] rest[k]).token.kind != TokenKind::StringLiteral by {
                        assert(rest[k] == ls[k + 1]);
                    }
                    assert(rebuilt(s, ls, st.cursor) =~= s.subrange(st.cursor as int, s.len() as int));
                }
            }
        }
    }
}

/// Tokenizing loses nothing. What lies between two tokens (or before the
/// first) is blanks; every token's text but a string literal's (which holds
/// the decoded content) is its exact source span, comments included; and when
/// no string literal occurs, the skipped blanks and the token texts put back
/// together give the source itself, so tokenizing them again gives the same
/// tokens.
pub proof fn lemma_lossless(s: Seq<char>)
    ensures
        lex(s) matches Ok(ls) ==> {
            &&& forall|k: int| 0 <= k < ls.len() ==> {
                &&& forall|j: int| gap_start(ls, k) <= j < (#[trigger] ls[k]).start ==> is_blank(#[trigger] s[j])
                &&& ls[k].token.kind != TokenKind::StringLiteral ==> ls[k].token.text == s.subrange(ls[k].start as int, ls[k].end as int)
            }
            &&& !has_string_literal(ls) ==> rebuilt(s, ls, 0) == s && lex(rebuilt(s, ls, 0)) == lex(s)
        },
{
    lemma_lex_from(s, initial_state());
    lemma_rebuilt_from(s, initial_state());
    if let Ok(ls) = lex(s) {
        assert forall|k: int| 0 <= k < ls.len() implies {
            &&& forall|j: int| gap_start(ls, k) <= j < (#[trigger] ls[k]).start ==> is_blank(#[trigger] s[j])
            &&& ls[k].token.kind != TokenKind::StringLiteral ==> ls[k].token.text == s.subrange(ls[k].start as int, ls[k].end as int)
        } by {
            assert(spans(s, 0, ls, k));
            if k > 0 {
                assert(adjacent(s, ls, k - 1));
                assert(spans(s, 0, ls, k - 1));
            }
            lemma_skip_blanks(s, gap_start(ls, k));
        }
        assert(s.subrange(0, s.len() as int) =~= s);
    }
}

/// Text shaped like an identifier: an ASCII letter or `_`, then ASCII
/// letters, digits or `_`.
pub open spec fn is_identifier(w: Seq<char>) -> bool {
    &&& w.len() > 0
    &&& ('a' <= w[0] <= 'z') || ('A' <= w[0] <= 'Z') || w[0] == '_'
    &&& forall|j: int| 1 <= j < w.len() ==> is_ident_char(#[trigger] w[j])
}

proof fn lemma_ident_end_all(s: Seq<char>, i: nat)
    requires
        i <= s.len(),
        forall|j: int| i <= j < s.len() ==> is_ident_char(#[trigger] s[j]),
    ensures
        ident_end(s, i) == s.len(),
    decreases s.len() - i,
{
    if i < s.len() {
        lemma_ident_end_all(s, i + 1);
    }
}

/// Text shaped like an identifier reads as one token, followed by the end of
/// input: a keyword exactly when it is one of `if`, `else`, `while`, `let`,
/// `define`; an operator when it is `or` or `and`; any other is a symbol.
pub proof fn lemma_keywords(w: Seq<char>)
    requires
        is_identifier(w),
    ensures
        lex(w) matches Ok(ls) && {
            &&& ls.len() == 2
            &&& ls[0].token.text == w
            &&& ls[0].token.kind == TokenKind::Keyword <==> is_keyword(w)
            &&& ls[0].token.kind == TokenKind::Operator <==> is_word_operator(w)
            &&& ls[0].token.kind == TokenKind::Symbol <==> !is_keyword(w) && !is_word_operator(w)
            &&& ls[1].token.kind == TokenKind::EndOfInput
        },
{
    reveal(scan);
    reveal_strlit("if");
    reveal_strlit("else");
    reveal_strlit("while");
    reveal_strlit("let");
    reveal_strlit("define");
    reveal_strlit("or");
    reveal_strlit("and");
    let c = w[0];
    assert((c as u32) < 128);
    assert(!is_blank(c));
    assert(skip_blanks(w, 0) == 0);
    lemma_ident_end_all(w, 1);
    assert(w.subrange(0, w.len() as int) =~= w);
    let st = initial_state();
    let next = scan(w, st)->Ok_0.1;
    assert(next.cursor == w.len());
    assert(skip_blanks(w, w.len()) == w.len());
    assert(lex_from(w, next) == Ok::<Seq<Lexeme>, LexError>(seq![scan(w, next)->Ok_0.0]));
}

} // verus!
