use vstd::prelude::*;

use crate::lexer::byte_at;
use crate::lexer::chars_of;
use crate::lexer::digit_run_end;
use crate::lexer::is_digit;
use crate::lexer::is_letter;
use crate::lexer::is_ws;
use crate::lexer::lemma_digit_run_bounds;
use crate::lexer::lemma_letter_run_bounds;
use crate::lexer::lemma_next_token_bounds;
use crate::lexer::lemma_skip_ws_bounds;
use crate::lexer::letter_run_end;
use crate::lexer::next_token_spec;
use crate::lexer::skip_ws;
use crate::lexer::spells;
use crate::lexer::token_stream;
use crate::lexer::word_token;
use crate::lexer::LexerView;
use crate::lexer::TokenView;

verus! {

/// Determinism: the next token and the whole remaining token stream
/// are functions of the buffer and the scan position alone, so any
/// two scanners standing on the same input at the same position — in
/// particular two fresh scanners over one buffer — yield the same
/// token sequence.
pub proof fn lemma_scan_deterministic(a: LexerView, b: LexerView)
    requires
        a.input == b.input,
        a.pos == b.pos,
    ensures
        next_token_spec(a.input, a.pos) == next_token_spec(b.input, b.pos),
        token_stream(a.input, a.pos) == token_stream(b.input, b.pos),
{
}

/// Termination: a scan yields finitely many tokens before the
/// end-of-input sentinel — no more than one per remaining input byte.
pub proof fn lemma_scan_finite(input: Seq<u8>, pos: int)
    requires
        0 <= pos <= input.len(),
    ensures
        token_stream(input, pos).len() <= input.len() - pos,
    decreases input.len() - pos,
{
    lemma_next_token_bounds(input, pos);
    let r = next_token_spec(input, pos);
    if !(r.0 is Eof) {
        lemma_scan_finite(input, r.1);
    }
}

/// Termination, at the end of the input: once the scan position
/// stands at or past the end of the buffer, every further step yields
/// `Eof` and does not move, so polling past the end repeats `Eof`
/// forever and the stream holds nothing more.
pub proof fn lemma_eof_stable(input: Seq<u8>, pos: int)
    requires
        input.len() <= pos,
    ensures
        next_token_spec(input, pos).0 is Eof,
        next_token_spec(input, pos).1 == pos,
        token_stream(input, pos) == Seq::<TokenView>::empty(),
{
    lemma_next_token_bounds(input, pos);
}

/// The stream from a position is exhausted exactly where the scanner
/// yields the end-of-input sentinel: every scan ends in `Eof`.
pub proof fn lemma_stream_ends_in_eof(input: Seq<u8>, pos: int)
    requires
        0 <= pos,
    ensures
        token_stream(input, pos).len() == 0 <==> next_token_spec(input, pos).0 is Eof,
{
    let r = next_token_spec(input, pos);
    if !(r.0 is Eof) {
        lemma_next_token_bounds(input, pos);
        assert(token_stream(input, pos) == seq![r.0] + token_stream(input, r.1));
    }
}

/// Maximal munch for integer literals: standing (after whitespace) on
/// a digit, the scanner consumes the whole digit run — every byte of
/// it a digit, the byte just past it not a digit — and emits one
/// integer token spelling the entire run.
pub proof fn lemma_maximal_munch_int(input: Seq<u8>, pos: int)
    requires
        0 <= pos,
        is_digit(byte_at(input, skip_ws(input, pos))),
    ensures
        ({
            let p = skip_ws(input, pos);
            let e = digit_run_end(input, p);
            &&& next_token_spec(input, pos) == (
                TokenView::Int(chars_of(input.subrange(p, e))),
                e,
            )
            &&& p < e <= input.len()
            &&& forall|i: int| p <= i < e ==> is_digit(byte_at(input, i))
            &&& !is_digit(byte_at(input, e))
        }),
{
    lemma_skip_ws_bounds(input, pos);
    let p = skip_ws(input, pos);
    assert(p < input.len());
    lemma_digit_run_bounds(input, p);
    assert(digit_run_end(input, p) == digit_run_end(input, p + 1));
    lemma_digit_run_bounds(input, p + 1);
}

/// Maximal munch for words: standing (after whitespace) on a letter
/// or underscore, the scanner consumes the whole letter/underscore
/// run — the byte just past it being of another class — and
/// classifies exactly that run as a keyword or identifier.
pub proof fn lemma_maximal_munch_word(input: Seq<u8>, pos: int)
    requires
        0 <= pos,
        is_letter(byte_at(input, skip_ws(input, pos))),
    ensures
        ({
            let p = skip_ws(input, pos);
            let e = letter_run_end(input, p);
            &&& next_token_spec(input, pos) == (word_token(input.subrange(p, e)), e)
            &&& p < e <= input.len()
            &&& forall|i: int| p <= i < e ==> is_letter(byte_at(input, i))
            &&& !is_letter(byte_at(input, e))
        }),
{
    lemma_skip_ws_bounds(input, pos);
    let p = skip_ws(input, pos);
    assert(p < input.len());
    lemma_letter_run_bounds(input, p);
    assert(letter_run_end(input, p) == letter_run_end(input, p + 1));
    lemma_letter_run_bounds(input, p + 1);
}

/// Operator disambiguation: after whitespace, `=` followed by `=`
/// yields one `Equal` token consuming both bytes and `=` followed by
/// anything else yields `Assign` consuming one; `!` likewise yields
/// `NotEqual` or `Bang`; and the two-byte tokens arise in no other
/// way.
pub proof fn lemma_operator_disambiguation(input: Seq<u8>, pos: int)
    requires
        0 <= pos,
    ensures
        ({
            let p = skip_ws(input, pos);
            let c = byte_at(input, p);
            let d = byte_at(input, p + 1);
            let r = next_token_spec(input, pos);
            &&& (c as char == '=' && d as char == '=' ==> r == (TokenView::Equal, p + 2))
            &&& (c as char == '=' && d as char != '=' ==> r == (TokenView::Assign, p + 1))
            &&& (c as char == '!' && d as char == '=' ==> r == (TokenView::NotEqual, p + 2))
            &&& (c as char == '!' && d as char != '=' ==> r == (TokenView::Bang, p + 1))
            &&& (r.0 is Equal ==> c as char == '=' && d as char == '=')
            &&& (r.0 is NotEqual ==> c as char == '!' && d as char == '=')
        }),
{
}

proof fn lemma_spells_chars(w: Seq<u8>, s: Seq<char>)
    requires
        spells(w, s),
    ensures
        w.len() == s.len(),
        forall|i: int| 0 <= i < w.len() ==> w[i] as char == s[i],
{
    assert(chars_of(w).len() == w.len());
    assert forall|i: int| 0 <= i < w.len() implies w[i] as char == s[i] by {
        assert(chars_of(w)[i] == w[i] as char);
    }
}

/// Keyword/identifier partition: every maximal letter/underscore run
/// is classified as exactly one of the seven fixed keywords — each
/// arising from its own spelling and no other — or as an identifier
/// carrying the run's exact spelling.
pub proof fn lemma_keyword_partition(w: Seq<u8>)
    ensures
        word_token(w) is Let <==> spells(w, "let"@),
        word_token(w) is Function <==> spells(w, "fn"@),
        word_token(w) is If <==> spells(w, "if"@),
        word_token(w) is Else <==> spells(w, "else"@),
        word_token(w) is Return <==> spells(w, "return"@),
        word_token(w) is True <==> spells(w, "true"@),
        word_token(w) is False <==> spells(w, "false"@),
        word_token(w) is Ident <==> !(spells(w, "let"@) || spells(w, "fn"@) || spells(w, "if"@)
            || spells(w, "else"@) || spells(w, "return"@) || spells(w, "true"@) || spells(
            w,
            "false"@,
        )),
        word_token(w) is Ident ==> word_token(w) == TokenView::Ident(chars_of(w)),
{
    reveal_strlit("let");
    reveal_strlit("fn");
    reveal_strlit("if");
    reveal_strlit("else");
    reveal_strlit("return");
    reveal_strlit("true");
    reveal_strlit("false");
    assert("let"@.len() == 3 && "let"@[0] == 'l' && "let"@[1] == 'e' && "let"@[2] == 't');
    if spells(w, "let"@) {
        let s = "let"@;
        lemma_spells_chars(w, s);
        assert(w.len() == 3);
        assert(w[0] as char == s[0]);
        assert(w[1] as char == s[1]);
        assert(w[2] as char == s[2]);
    }
    assert("fn"@.len() == 2 && "fn"@[0] == 'f' && "fn"@[1] == 'n');
    if spells(w, "fn"@) {
        let s = "fn"@;
        lemma_spells_chars(w, s);
        assert(w.len() == 2);
        assert(w[0] as char == s[0]);
        assert(w[1] as char == s[1]);
    }
    assert("if"@.len() == 2 && "if"@[0] == 'i' && "if"@[1] == 'f');
    if spells(w, "if"@) {
        let s = "if"@;
        lemma_spells_chars(w, s);
        assert(w.len() == 2);
        assert(w[0] as char == s[0]);
        assert(w[1] as char == s[1]);
    }
    assert("else"@.len() == 4 && "else"@[0] == 'e' && "else"@[1] == 'l' && "else"@[2] == 's' && "else"@[3] == 'e');
    if spells(w, "else"@) {
        let s = "else"@;
        lemma_spells_chars(w, s);
        assert(w.len() == 4);
        assert(w[0] as char == s[0]);
        assert(w[1] as char == s[1]);
        assert(w[2] as char == s[2]);
        assert(w[3] as char == s[3]);
    }
    assert("return"@.len() == 6 && "return"@[0] == 'r' && "return"@[1] == 'e' && "return"@[2] == 't' && "return"@[3] == 'u' && "return"@[4] == 'r' && "return"@[5] == 'n');
    if spells(w, "return"@) {
        let s = "return"@;
        lemma_spells_chars(w, s);
        assert(w.len() == 6);
        assert(w[0] as char == s[0]);
        assert(w[1] as char == s[1]);
        assert(w[2] as char == s[2]);
        assert(w[3] as char == s[3]);
        assert(w[4] as char == s[4]);
        assert(w[5] as char == s[5]);
    }
    assert("true"@.len() == 4 && "true"@[0] == 't' && "true"@[1] == 'r' && "true"@[2] == 'u' && "true"@[3] == 'e');
    if spells(w, "true"@) {
        let s = "true"@;
        lemma_spells_chars(w, s);
        assert(w.len() == 4);
        assert(w[0] as char == s[0]);
        assert(w[1] as char == s[1]);
        assert(w[2] as char == s[2]);
        assert(w[3] as char == s[3]);
    }
    assert("false"@.len() == 5 && "false"@[0] == 'f' && "false"@[1] == 'a' && "false"@[2] == 'l' && "false"@[3] == 's' && "false"@[4] == 'e');
    if spells(w, "false"@) {
        let s = "false"@;
        lemma_spells_chars(w, s);
        assert(w.len() == 5);
        assert(w[0] as char == s[0]);
        assert(w[1] as char == s[1]);
        assert(w[2] as char == s[2]);
        assert(w[3] as char == s[3]);
        assert(w[4] as char == s[4]);
    }
    if w.len() == 3 && w[0] as char == 'l' && w[1] as char == 'e' && w[2] as char == 't' {
        assert(chars_of(w) =~= "let"@);
    }
    if w.len() == 2 && w[0] as char == 'f' && w[1] as char == 'n' {
        assert(chars_of(w) =~= "fn"@);
    }
    if w.len() == 2 && w[0] as char == 'i' && w[1] as char == 'f' {
        assert(chars_of(w) =~= "if"@);
    }
    if w.len() == 4 && w[0] as char == 'e' && w[1] as char == 'l' && w[2] as char == 's' && w[3]
        as char == 'e' {
        assert(chars_of(w) =~= "else"@);
    }
    if w.len() == 6 && w[0] as char == 'r' && w[1] as char == 'e' && w[2] as char == 't' && w[3]
        as char == 'u' && w[4] as char == 'r' && w[5] as char == 'n' {
        assert(chars_of(w) =~= "return"@);
    }
    if w.len() == 4 && w[0] as char == 't' && w[1] as char == 'r' && w[2] as char == 'u' && w[3]
        as char == 'e' {
        assert(chars_of(w) =~= "true"@);
    }
    if w.len() == 5 && w[0] as char == 'f' && w[1] as char == 'a' && w[2] as char == 'l' && w[3]
        as char == 's' && w[4] as char == 'e' {
        assert(chars_of(w) =~= "false"@);
    }
}

proof fn lemma_skip_ws_shift(input: Seq<u8>, k: int, q: int)
    requires
        0 <= k <= input.len(),
        0 <= q,
    ensures
        skip_ws(input, k + q) == k + skip_ws(input.skip(k), q),
    decreases input.len() - (k + q),
{
    assert(byte_at(input, k + q) == byte_at(input.skip(k), q));
    if k + q < input.len() && is_ws(byte_at(input, k + q)) {
        lemma_skip_ws_shift(input, k, q + 1);
    }
}

proof fn lemma_digit_run_shift(input: Seq<u8>, k: int, q: int)
    requires
        0 <= k <= input.len(),
        0 <= q,
    ensures
        digit_run_end(input, k + q) == k + digit_run_end(input.skip(k), q),
    decreases input.len() - (k + q),
{
    assert(byte_at(input, k + q) == byte_at(input.skip(k), q));
    if k + q < input.len() && is_digit(byte_at(input, k + q)) {
        lemma_digit_run_shift(input, k, q + 1);
    }
}

proof fn lemma_letter_run_shift(input: Seq<u8>, k: int, q: int)
    requires
        0 <= k <= input.len(),
        0 <= q,
    ensures
        letter_run_end(input, k + q) == k + letter_run_end(input.skip(k), q),
    decreases input.len() - (k + q),
{
    assert(byte_at(input, k + q) == byte_at(input.skip(k), q));
    if k + q < input.len() && is_letter(byte_at(input, k + q)) {
        lemma_letter_run_shift(input, k, q + 1);
    }
}

proof fn lemma_next_token_shift(input: Seq<u8>, k: int, q: int)
    requires
        0 <= k <= input.len(),
        0 <= q,
    ensures
        next_token_spec(input, k + q).0 == next_token_spec(input.skip(k), q).0,
        next_token_spec(input, k + q).1 == k + next_token_spec(input.skip(k), q).1,
{
    let tail = input.skip(k);
    lemma_skip_ws_shift(input, k, q);
    lemma_skip_ws_bounds(tail, q);
    let p2 = skip_ws(tail, q);
    let p = k + p2;
    assert(byte_at(input, p) == byte_at(tail, p2));
    assert(byte_at(input, p + 1) == byte_at(tail, p2 + 1));
    let c = byte_at(input, p);
    if is_digit(c) {
        lemma_digit_run_shift(input, k, p2);
        let e2 = digit_run_end(tail, p2);
        lemma_digit_run_bounds(tail, p2);
        assert(input.subrange(p, k + e2) =~= tail.subrange(p2, e2));
    } else if is_letter(c) {
        lemma_letter_run_shift(input, k, p2);
        let e2 = letter_run_end(tail, p2);
        lemma_letter_run_bounds(tail, p2);
        assert(input.subrange(p, k + e2) =~= tail.subrange(p2, e2));
    }
}

proof fn lemma_stream_shift(input: Seq<u8>, k: int, q: int)
    requires
        0 <= k <= input.len(),
        0 <= q,
    ensures
        token_stream(input, k + q) == token_stream(input.skip(k), q),
    decreases input.len() - (k + q),
{
    let tail = input.skip(k);
    lemma_next_token_shift(input, k, q);
    lemma_next_token_bounds(input, k + q);
    lemma_next_token_bounds(tail, q);
    let r = next_token_spec(input, k + q);
    if !(r.0 is Eof) {
        lemma_stream_shift(input, k, next_token_spec(tail, q).1);
    }
}

/// The stream from a position depends only on the bytes from that
/// position on: the scanner never looks back.
pub proof fn lemma_stream_depends_on_suffix(input: Seq<u8>, pos: int)
    requires
        0 <= pos <= input.len(),
    ensures
        token_stream(input, pos) == token_stream(input.skip(pos), 0),
{
    lemma_stream_shift(input, pos, 0);
}

proof fn lemma_stream_skip_one_ws(input: Seq<u8>, pos: int)
    requires
        0 <= pos,
        is_ws(byte_at(input, pos)),
    ensures
        token_stream(input, pos) == token_stream(input, pos + 1),
{
    assert(pos < input.len());
    assert(skip_ws(input, pos) == skip_ws(input, pos + 1));
    lemma_next_token_bounds(input, pos);
    let r = next_token_spec(input, pos);
    assert(next_token_spec(input, pos + 1) == r);
    assert(token_stream(input, pos) =~= token_stream(input, pos + 1));
}

proof fn lemma_stream_ws_run(input: Seq<u8>, pos: int, end: int)
    requires
        0 <= pos <= end <= input.len(),
        forall|i: int| pos <= i < end ==> is_ws(byte_at(input, i)),
    ensures
        token_stream(input, pos) == token_stream(input, end),
    decreases end - pos,
{
    if pos < end {
        lemma_stream_skip_one_ws(input, pos);
        lemma_stream_ws_run(input, pos + 1, end);
    }
}

/// Whitespace transparency: inserting any run of whitespace at the
/// scan position — in particular between two tokens — never changes
/// the tokens the scanner yields from there on.
pub proof fn lemma_whitespace_transparent(before: Seq<u8>, ws: Seq<u8>, after: Seq<u8>)
    requires
        forall|i: int| 0 <= i < ws.len() ==> is_ws(ws[i]),
    ensures
        token_stream(before + ws + after, before.len() as int) == token_stream(
            before + after,
            before.len() as int,
        ),
{
    let padded = before + ws + after;
    let plain = before + after;
    let b = before.len() as int;
    assert(forall|i: int| b <= i < b + ws.len() ==> byte_at(padded, i) == ws[i - b]);
    lemma_stream_ws_run(padded, b, b + ws.len());
    lemma_stream_shift(padded, b + ws.len(), 0);
    assert(padded.skip(b + ws.len()) =~= after);
    lemma_stream_shift(plain, b, 0);
    assert(plain.skip(b) =~= after);
}

} // verus!
