//! Laws of the grammar, proved once and for all token streams: how binding
//! strength shapes the tree, and that assignment binds loosest.

use vstd::prelude::*;

use crate::ast::{prec_rank, token_prec, ExprV, Precedence, TokenV};
use crate::calc::{balanced_text, count_char, lemma_count_le};
use crate::lexer::{is_terminal, stream_wf, tok_at};
use crate::parser::{is_binop, mk_bin, m_of, p_adv, p_atom, p_expr, p_infix, p_loop, p_parse,
    ParseErrV, ParseOk};

verus! {

/// At a non-terminal token the measure is positive and shrinks ahead.
proof fn lemma_nonterminal(toks: Seq<TokenV>, n: nat)
    requires
        stream_wf(toks),
        !is_terminal(tok_at(toks, n)),
    ensures
        n + 1 < toks.len(),
        forall|k: nat| n < k ==> #[trigger] m_of(toks, k) < m_of(toks, n),
{
    if n + 1 >= toks.len() {
        assert(tok_at(toks, n) == toks.last());
    }
}

/// The climbing loop never moves backwards, and stops only at the end of
/// input or at a token that does not bind more tightly than its threshold.
pub proof fn lemma_p_loop_post(toks: Seq<TokenV>, n: nat, left: ExprV, min: Precedence)
    requires
        stream_wf(toks),
    ensures
        p_loop(toks, n, left, min) matches Ok(q) ==> q.n >= n && (tok_at(toks, q.n) is Eof
            || prec_rank(token_prec(tok_at(toks, q.n))) <= prec_rank(min)),
    decreases m_of(toks, n), 1nat,
{
    let cur = tok_at(toks, n);
    if !(cur is Eof) && prec_rank(min) < prec_rank(token_prec(cur)) {
        match p_infix(toks, n, left) {
            Ok(p) => {
                if n < p.n {
                    assert(!is_terminal(cur)) by {
                        if cur is Bad {
                            assert(prec_rank(token_prec(cur)) == 0);
                        }
                    }
                    lemma_nonterminal(toks, n);
                    lemma_p_loop_post(toks, p.n, p.e, min);
                }
            },
            Err(_) => {},
        }
    }
}

/// A successful parse consumes at least one token, and stops only at the end
/// of input or below its threshold.
pub proof fn lemma_p_expr_post(toks: Seq<TokenV>, n: nat, min: Precedence)
    requires
        stream_wf(toks),
    ensures
        p_expr(toks, n, min) matches Ok(p) ==> p.n > n && (tok_at(toks, p.n) is Eof || prec_rank(
            token_prec(tok_at(toks, p.n)),
        ) <= prec_rank(min)),
{
    match p_atom(toks, n) {
        Ok(pa) => {
            if n < pa.n {
                lemma_p_loop_post(toks, pa.n, pa.e, min);
            }
        },
        Err(_) => {},
    }
}

/// The law of binding strength. For any three numeric literals joined by two
/// infix operators, the parse associates by the operators' binding strength:
/// the second operator takes the middle operand exactly when it binds more
/// tightly than the first; on ties and weaker seconds the fold is to the
/// left. Instantiating the pairs gives the whole order: `^` binds tighter
/// than `*` and `/`, which bind tighter than `+` and `-` (see
/// [`prec_rank`]).
pub proof fn law_binary_precedence(a: Seq<char>, b: Seq<char>, c: Seq<char>, o1: TokenV, o2: TokenV)
    requires
        is_binop(o1),
        is_binop(o2),
    ensures
        ({
            let toks = seq![
                TokenV::Num(a),
                o1,
                TokenV::Num(b),
                o2,
                TokenV::Num(c),
                TokenV::Eof,
            ];
            let tighter = prec_rank(token_prec(o1)) < prec_rank(token_prec(o2));
            &&& tighter ==> p_parse(toks) == Ok::<ParseOk, ParseErrV>(
                ParseOk {
                    e: mk_bin(o1, ExprV::Num(a), mk_bin(o2, ExprV::Num(b), ExprV::Num(c))),
                    n: 5nat,
                },
            )
            &&& !tighter ==> p_parse(toks) == Ok::<ParseOk, ParseErrV>(
                ParseOk {
                    e: mk_bin(o2, mk_bin(o1, ExprV::Num(a), ExprV::Num(b)), ExprV::Num(c)),
                    n: 5nat,
                },
            )
        }),
{
    let toks = seq![TokenV::Num(a), o1, TokenV::Num(b), o2, TokenV::Num(c), TokenV::Eof];
    assert(toks.len() == 6);
    assert(toks.last() == TokenV::Eof);
    assert(stream_wf(toks));
    assert(tok_at(toks, 0) == TokenV::Num(a));
    assert(tok_at(toks, 1) == o1);
    assert(tok_at(toks, 2) == TokenV::Num(b));
    assert(tok_at(toks, 3) == o2);
    assert(tok_at(toks, 4) == TokenV::Num(c));
    assert(tok_at(toks, 5) == TokenV::Eof);
    assert(tok_at(toks, 6) == TokenV::Eof);
    assert(tok_at(toks, 7) == TokenV::Eof);
    let prec1 = token_prec(o1);
    let prec2 = token_prec(o2);
    assert(prec_rank(prec1) >= 2 && prec_rank(prec2) >= 2);
    assert(p_adv(toks, 0) == Ok::<nat, ParseErrV>(1nat));
    assert(p_atom(toks, 0) == Ok::<ParseOk, ParseErrV>(ParseOk { e: ExprV::Num(a), n: 1nat }));
    assert(p_adv(toks, 2) == Ok::<nat, ParseErrV>(3nat));
    assert(p_atom(toks, 2) == Ok::<ParseOk, ParseErrV>(ParseOk { e: ExprV::Num(b), n: 3nat }));
    assert(p_adv(toks, 4) == Ok::<nat, ParseErrV>(5nat));
    assert(p_atom(toks, 4) == Ok::<ParseOk, ParseErrV>(ParseOk { e: ExprV::Num(c), n: 5nat }));
    assert(p_loop(toks, 5, ExprV::Num(c), prec2) == Ok::<ParseOk, ParseErrV>(
        ParseOk { e: ExprV::Num(c), n: 5nat },
    ));
    assert(p_expr(toks, 4, prec2) == Ok::<ParseOk, ParseErrV>(
        ParseOk { e: ExprV::Num(c), n: 5nat },
    ));
    assert(p_adv(toks, 3) == Ok::<nat, ParseErrV>(4nat));
    assert(p_infix(toks, 3, ExprV::Num(b)) == Ok::<ParseOk, ParseErrV>(
        ParseOk { e: mk_bin(o2, ExprV::Num(b), ExprV::Num(c)), n: 5nat },
    ));
    assert(p_adv(toks, 1) == Ok::<nat, ParseErrV>(2nat));
    if prec_rank(prec1) < prec_rank(prec2) {
        let bin2 = mk_bin(o2, ExprV::Num(b), ExprV::Num(c));
        assert(p_loop(toks, 3, ExprV::Num(b), prec1) == p_loop(toks, 5, bin2, prec1));
        assert(p_loop(toks, 5, bin2, prec1) == Ok::<ParseOk, ParseErrV>(
            ParseOk { e: bin2, n: 5nat },
        ));
        assert(p_expr(toks, 2, prec1) == Ok::<ParseOk, ParseErrV>(ParseOk { e: bin2, n: 5nat }));
        let bin1 = mk_bin(o1, ExprV::Num(a), bin2);
        assert(p_infix(toks, 1, ExprV::Num(a)) == Ok::<ParseOk, ParseErrV>(
            ParseOk { e: bin1, n: 5nat },
        ));
        assert(p_loop(toks, 1, ExprV::Num(a), Precedence::Lowest) == p_loop(
            toks,
            5,
            bin1,
            Precedence::Lowest,
        ));
        assert(p_loop(toks, 5, bin1, Precedence::Lowest) == Ok::<ParseOk, ParseErrV>(
            ParseOk { e: bin1, n: 5nat },
        ));
        assert(p_expr(toks, 0, Precedence::Lowest) == Ok::<ParseOk, ParseErrV>(
            ParseOk { e: bin1, n: 5nat },
        ));
    } else {
        assert(p_loop(toks, 3, ExprV::Num(b), prec1) == Ok::<ParseOk, ParseErrV>(
            ParseOk { e: ExprV::Num(b), n: 3nat },
        ));
        assert(p_expr(toks, 2, prec1) == Ok::<ParseOk, ParseErrV>(
            ParseOk { e: ExprV::Num(b), n: 3nat },
        ));
        let bin1 = mk_bin(o1, ExprV::Num(a), ExprV::Num(b));
        assert(p_infix(toks, 1, ExprV::Num(a)) == Ok::<ParseOk, ParseErrV>(
            ParseOk { e: bin1, n: 3nat },
        ));
        let bin2 = mk_bin(o2, bin1, ExprV::Num(c));
        assert(p_infix(toks, 3, bin1) == Ok::<ParseOk, ParseErrV>(ParseOk { e: bin2, n: 5nat }));
        assert(p_loop(toks, 1, ExprV::Num(a), Precedence::Lowest) == p_loop(
            toks,
            3,
            bin1,
            Precedence::Lowest,
        ));
        assert(p_loop(toks, 3, bin1, Precedence::Lowest) == p_loop(
            toks,
            5,
            bin2,
            Precedence::Lowest,
        ));
        assert(p_loop(toks, 5, bin2, Precedence::Lowest) == Ok::<ParseOk, ParseErrV>(
            ParseOk { e: bin2, n: 5nat },
        ));
        assert(p_expr(toks, 0, Precedence::Lowest) == Ok::<ParseOk, ParseErrV>(
            ParseOk { e: bin2, n: 5nat },
        ));
    }
}

/// The law of assignment. On any token stream that begins with a name and
/// `=`, a successful parse is an assignment of the name to the whole rest of
/// the parse: the equals sign binds loosest, so `x = 1 + 2` assigns the sum,
/// never the first operand alone.
pub proof fn law_assign_binds_loosest(toks: Seq<TokenV>, x: Seq<char>)
    requires
        stream_wf(toks),
        tok_at(toks, 0) == TokenV::Ident(x),
        tok_at(toks, 1) == TokenV::Equals,
        p_parse(toks) is Ok,
    ensures
        p_expr(toks, 2, Precedence::Assign) matches Ok(rhs) && p_parse(toks) == Ok::<
            ParseOk,
            ParseErrV,
        >(ParseOk { e: ExprV::Assign(x, Box::new(rhs.e)), n: rhs.n }),
{
    if p_adv(toks, 0) is Err {
        assert(p_atom(toks, 0) is Err);
        assert(false);
    }
    if p_adv(toks, 1) is Err {
        assert(p_atom(toks, 0) is Err);
        assert(false);
    }
    match p_expr(toks, 2, Precedence::Assign) {
        Err(e) => {
            assert(p_atom(toks, 0) is Err);
            assert(false);
        },
        Ok(rhs) => {
            let node = ExprV::Assign(x, Box::new(rhs.e));
            assert(p_atom(toks, 0) == Ok::<ParseOk, ParseErrV>(ParseOk { e: node, n: rhs.n }));
            lemma_p_expr_post(toks, 2, Precedence::Assign);
            assert(rhs.n > 2);
            let cur = tok_at(toks, rhs.n);
            if cur is Eof {
                assert(p_loop(toks, rhs.n, node, Precedence::Lowest) == Ok::<ParseOk, ParseErrV>(
                    ParseOk { e: node, n: rhs.n },
                ));
            } else {
                assert(prec_rank(token_prec(cur)) <= 1);
                if prec_rank(token_prec(cur)) == 0 {
                    assert(p_loop(toks, rhs.n, node, Precedence::Lowest) == Ok::<
                        ParseOk,
                        ParseErrV,
                    >(ParseOk { e: node, n: rhs.n }));
                } else {
                    assert(token_prec(cur) == Precedence::Assign);
                    assert(!is_binop(cur));
                    assert(p_infix(toks, rhs.n, node) is Err);
                    assert(p_loop(toks, rhs.n, node, Precedence::Lowest) is Err);
                    assert(p_parse(toks) is Err);
                    assert(false);
                }
            }
        },
    }
}

/// The order of the binding strengths themselves: assignment is the loosest
/// operator, sums bind above it, products above sums, powers above products,
/// function application above any infix operator, and negation tightest.
pub proof fn law_operator_order()
    ensures
        prec_rank(Precedence::Lowest) < prec_rank(Precedence::Assign),
        prec_rank(Precedence::Assign) < prec_rank(Precedence::Sum),
        prec_rank(Precedence::Sum) < prec_rank(Precedence::Product),
        prec_rank(Precedence::Product) < prec_rank(Precedence::Power),
        prec_rank(Precedence::Power) < prec_rank(Precedence::Function),
        prec_rank(Precedence::Function) < prec_rank(Precedence::Prefix),
{
}

proof fn lemma_count_app(a: Seq<char>, b: Seq<char>, c: char)
    ensures
        count_char(a + b, c) == count_char(a, c) + count_char(b, c),
    decreases b.len(),
{
    if b.len() == 0 {
        assert(a + b =~= a);
    } else {
        lemma_count_app(a, b.drop_last(), c);
        assert((a + b).drop_last() =~= a + b.drop_last());
        assert((a + b).last() == b.last());
    }
}

proof fn lemma_count_all_closers(b: Seq<char>)
    requires
        forall|i: int| 0 <= i < b.len() ==> b[i] == ')',
    ensures
        count_char(b, ')') == b.len(),
        count_char(b, '(') == 0,
    decreases b.len(),
{
    if b.len() > 0 {
        lemma_count_all_closers(b.drop_last());
    }
}

/// The law of lenient closing. Where a text leaves opening parentheses
/// unmatched, its balanced form closes them at the end and is itself already
/// balanced: balancing is a fixed point there. Since the calculator's
/// contract makes a calculation a function of the balanced text alone, a
/// text with missing closing parentheses calculates exactly as the
/// explicitly closed text does.
pub proof fn law_balance_closes_missing(s: Seq<char>)
    requires
        count_char(s, '(') >= count_char(s, ')'),
    ensures
        balanced_text(balanced_text(s)) == balanced_text(s),
{
    let opens = count_char(s, '(') as int;
    let closes = count_char(s, ')') as int;
    if opens > closes {
        let tail = Seq::new((opens - closes) as nat, |i: int| ')');
        lemma_count_app(s, tail, '(');
        lemma_count_app(s, tail, ')');
        lemma_count_all_closers(tail);
    }
}

/// The law of lenient truncation. Where a text's surplus closing
/// parentheses all stand at its end, the balanced form cuts exactly them and
/// is itself already balanced, so such a text calculates exactly as the text
/// without the surplus.
pub proof fn law_balance_cuts_trailing_surplus(s: Seq<char>)
    requires
        count_char(s, ')') > count_char(s, '('),
        forall|i: int|
            s.len() - (count_char(s, ')') - count_char(s, '(')) <= i < s.len() ==> s[i] == ')',
    ensures
        balanced_text(balanced_text(s)) == balanced_text(s),
{
    let opens = count_char(s, '(') as int;
    let closes = count_char(s, ')') as int;
    let k = closes - opens;
    assert(count_char(s, ')') <= s.len()) by {
        lemma_count_le(s, ')');
    }
    let t = s.take(s.len() - k);
    let tail = s.skip(s.len() - k);
    assert(s =~= t + tail);
    lemma_count_app(t, tail, '(');
    lemma_count_app(t, tail, ')');
    lemma_count_all_closers(tail);
    assert(count_char(t, '(') == opens);
    assert(count_char(t, ')') == closes - k);
}

} // verus!
