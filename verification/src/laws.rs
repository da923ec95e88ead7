//! Laws of the front end: what holds of scanning and parsing on every
//! input, proved once and for all over the spec functions that the
//! executable scanner and parser are verified against.

use vstd::prelude::*;
use crate::lexer::{TokenV, next_token_of, skip_ws, str_end, keyword_or_ident, kw_import, kw_if,
    kw_else, kw_print, kw_true, kw_false, lemma_skip_ws_bounds, spec_boolean};
use crate::parser::{spec_parse, spec_stmts_to_error, spec_stmts_to_else, spec_factor,
    lemma_factor_bounds, lemma_stmts_to_error_bounds, lemma_stmts_to_else_bounds};

verus! {

/// Totality: the tree parsed from any input text is a `Program` node —
/// for the empty string, pure whitespace, and text opening with an
/// unrecognized symbol alike. Parsing never fails; only an integer literal
/// beyond `i64::MAX` is fatal, and that is a scanning failure, reported by
/// `scan_all_fits` and `parse_source_checked` before any parsing.
pub proof fn lemma_parse_total(s: Seq<char>)
    ensures
        spec_parse(s) is Program,
{
}

/// Keyword precedence, scanner side: a word spelled exactly like a keyword
/// becomes that keyword's token (`true` and `false` their boolean tokens),
/// and every other word — even a near miss — becomes an identifier carrying
/// exactly its own spelling.
pub proof fn lemma_keyword_precedence(w: Seq<char>)
    ensures
        w == kw_import() ==> keyword_or_ident(w) == TokenV::Import,
        w == kw_if() ==> keyword_or_ident(w) == TokenV::If,
        w == kw_else() ==> keyword_or_ident(w) == TokenV::Else,
        w == kw_print() ==> keyword_or_ident(w) == TokenV::Print,
        w == kw_true() ==> keyword_or_ident(w) == TokenV::Boolean(true),
        w == kw_false() ==> keyword_or_ident(w) == TokenV::Boolean(false),
        w != kw_import() && w != kw_if() && w != kw_else() && w != kw_print() && w != kw_true()
            && w != kw_false() ==> keyword_or_ident(w) == TokenV::Identifier(w),
{
    reveal_strlit("import");
    reveal_strlit("if");
    reveal_strlit("else");
    reveal_strlit("print");
    reveal_strlit("true");
    reveal_strlit("false");
    assert(kw_import().len() == 6);
    assert(kw_if().len() == 2);
    assert(kw_else().len() == 4);
    assert(kw_print().len() == 5);
    assert(kw_true().len() == 4);
    assert(kw_false().len() == 5);
    assert(kw_else()[0] == 'e' && kw_true()[0] == 't');
    assert(kw_print()[0] == 'p' && kw_false()[0] == 'f');
}

/// Keyword precedence, stream side: a token the scanner returns as
/// `Identifier(w)` is never spelled like a keyword.
pub proof fn lemma_identifier_not_keyword(s: Seq<char>, p: int, w: Seq<char>)
    requires
        next_token_of(s, p).0 == TokenV::Identifier(w),
    ensures
        w != kw_import(),
        w != kw_if(),
        w != kw_else(),
        w != kw_print(),
        w != kw_true(),
        w != kw_false(),
{
}

/// A string literal without a closing quote scans to `Error`, and the
/// cursor is left at the end of the input.
pub proof fn lemma_unterminated_string(s: Seq<char>, p: int)
    requires
        0 <= p <= s.len(),
        skip_ws(s, p) < s.len(),
        s[skip_ws(s, p)] == '"',
        forall|i: int| skip_ws(s, p) < i < s.len() ==> s[i] != '"',
    ensures
        next_token_of(s, p).0 is Error,
        next_token_of(s, p).1 == s.len(),
{
    lemma_skip_ws_bounds(s, p);
    lemma_str_end_no_quote(s, skip_ws(s, p) + 1);
}

/// Where no closing quote follows, a string literal runs to the end of the
/// input.
proof fn lemma_str_end_no_quote(s: Seq<char>, p: int)
    requires
        0 <= p <= s.len(),
        forall|i: int| p <= i < s.len() ==> s[i] != '"',
    ensures
        str_end(s, p) == s.len(),
    decreases s.len() - p,
{
    if p < s.len() {
        lemma_str_end_no_quote(s, p + 1);
    }
}

/// Scanning past the end of the input returns `Error` without moving the
/// cursor, again and again; together with `lemma_error_stable`, re-scanning
/// at any `Error` is idempotent.
pub proof fn lemma_scan_idempotent_at_end(s: Seq<char>, p: int)
    requires
        p >= s.len(),
    ensures
        next_token_of(s, p).0 is Error,
        next_token_of(s, p).1 == p,
{
}

/// The alternate boolean matcher agrees with the keyword spellings: it
/// yields a boolean token exactly where the input carries the word `true`,
/// or `false`, whole from the cursor.
pub proof fn lemma_boolean_matches_keyword(s: Seq<char>, p: int)
    requires
        0 <= p,
    ensures
        spec_boolean(s, p).0 == TokenV::Boolean(true) <==> (p + 4 <= s.len() && s.subrange(
            p,
            p + 4,
        ) == kw_true()),
        spec_boolean(s, p).0 == TokenV::Boolean(false) <==> (p + 5 <= s.len() && s.subrange(
            p,
            p + 5,
        ) == kw_false()),
{
    reveal_strlit("true");
    reveal_strlit("false");
    if spec_boolean(s, p).0 == TokenV::Boolean(true) {
        assert(s.subrange(p, p + 4) =~= kw_true());
    }
    if p + 4 <= s.len() && s.subrange(p, p + 4) == kw_true() {
        assert(s[p] == s.subrange(p, p + 4)[0]);
        assert(s[p + 1] == s.subrange(p, p + 4)[1]);
        assert(s[p + 2] == s.subrange(p, p + 4)[2]);
        assert(s[p + 3] == s.subrange(p, p + 4)[3]);
    }
    if spec_boolean(s, p).0 == TokenV::Boolean(false) {
        assert(s.subrange(p, p + 5) =~= kw_false());
    }
    if p + 5 <= s.len() && s.subrange(p, p + 5) == kw_false() {
        assert(s[p] == s.subrange(p, p + 5)[0]);
        assert(s[p + 1] == s.subrange(p, p + 5)[1]);
        assert(s[p + 2] == s.subrange(p, p + 5)[2]);
        assert(s[p + 3] == s.subrange(p, p + 5)[3]);
        assert(s[p + 4] == s.subrange(p, p + 5)[4]);
    }
}

/// Absorption: a statement sequence — the program, an else-branch, or a
/// print's arguments — stops only at the `Error` sentinel, so the lookahead
/// after it is `Error` and nothing of the input is left to any statement
/// that might have followed.
pub proof fn lemma_stmts_absorb_to_error(s: Seq<char>, p: int)
    requires
        0 <= p <= s.len(),
    ensures
        next_token_of(s, spec_stmts_to_error(s, p).1).0 is Error,
    decreases s.len() - p,
{
    let t = next_token_of(s, p);
    if !(t.0 is Error) {
        lemma_factor_bounds(s, p);
        let n = spec_factor(s, p);
        lemma_stmts_absorb_to_error(s, n.1);
        lemma_stmts_to_error_bounds(s, n.1);
    }
}

/// The counterpart for a then-branch and a print's arguments: they stop
/// only at `else` or at the `Error` sentinel, whichever the scanner yields
/// first.
pub proof fn lemma_stmts_stop_at_else_or_error(s: Seq<char>, p: int)
    requires
        0 <= p <= s.len(),
    ensures
        next_token_of(s, spec_stmts_to_else(s, p).1).0 is Else || next_token_of(
            s,
            spec_stmts_to_else(s, p).1,
        ).0 is Error,
    decreases s.len() - p,
{
    let t = next_token_of(s, p);
    if !(t.0 is Else || t.0 is Error) {
        lemma_factor_bounds(s, p);
        let n = spec_factor(s, p);
        lemma_stmts_stop_at_else_or_error(s, n.1);
        lemma_stmts_to_else_bounds(s, n.1);
    }
}

} // verus!
