//! The evaluator: the recursive value parser, the per-variant method
//! dispatch, and the statement runner that threads the environment.
use vstd::prelude::*;

use crate::effects::{ArithOp, EffectHandler};
use crate::handles::{App, File, Folder};
use crate::lexer::{
    spec_tokenize_expr, spec_tokenize_program, tokenize_expr, tokenize_program,
};
use crate::memory::{contains_name, lookup, Memory};
use crate::number::{is_number_text, is_number_token};
use crate::text::{spec_trim, str_eq, trim_str};
use crate::value::{number_coercible, shapes_of, text_coercible, Value, ValueV};

verus! {

/// A token that is a double-quoted literal: it begins and ends with `"`.
pub open spec fn quote_form(t: Seq<char>) -> bool {
    t.len() >= 2 && t[0] == '"' && t[t.len() - 1] == '"'
}

/// A token that is a parenthesized sub-expression.
pub open spec fn paren_form(t: Seq<char>) -> bool {
    t.len() >= 2 && t[0] == '(' && t[t.len() - 1] == ')'
}

/// A token that is a brace-delimited statement block.
pub open spec fn brace_form(t: Seq<char>) -> bool {
    t.len() >= 2 && t[0] == '{' && t[t.len() - 1] == '}'
}

/// A token that is an array literal.
pub open spec fn bracket_form(t: Seq<char>) -> bool {
    t.len() >= 2 && t[0] == '[' && t[t.len() - 1] == ']'
}

/// A token of the form `File(`…`)`.
pub open spec fn file_ctor_form(t: Seq<char>) -> bool {
    t.len() >= 6 && t[0] == 'F' && t[1] == 'i' && t[2] == 'l' && t[3] == 'e' && t[4] == '(' && t[t.len()
        - 1] == ')'
}

/// A token of the form `Folder(`…`)`.
pub open spec fn folder_ctor_form(t: Seq<char>) -> bool {
    t.len() >= 8 && t[0] == 'F' && t[1] == 'o' && t[2] == 'l' && t[3] == 'd' && t[4] == 'e' && t[5]
        == 'r' && t[6] == '(' && t[t.len() - 1] == ')'
}

/// A token of the form `App(`…`)`.
pub open spec fn app_ctor_form(t: Seq<char>) -> bool {
    t.len() >= 5 && t[0] == 'A' && t[1] == 'p' && t[2] == 'p' && t[3] == '(' && t[t.len() - 1]
        == ')'
}

/// A trimmed token that matches none of the special literal forms, so the
/// parser's fallback makes it a plain string.
pub open spec fn bare_form(t: Seq<char>) -> bool {
    &&& !is_number_text(t)
    &&& !quote_form(t)
    &&& !paren_form(t)
    &&& !brace_form(t)
    &&& !bracket_form(t)
    &&& !file_ctor_form(t)
    &&& !folder_ctor_form(t)
    &&& !app_ctor_form(t)
}

/// One of the six arithmetic method names a Number understands.
pub open spec fn arith_method(m: Seq<char>) -> bool {
    m == "+"@ || m == "-"@ || m == "*"@ || m == "/"@ || m == "%"@ || m == "^"@
}

/// A trimmed token that is none of the recursive forms, so parsing it
/// cannot fail: a bound name, a number, a quoted literal or a bare string.
pub open spec fn leaf_form(t: Seq<char>) -> bool {
    &&& !paren_form(t)
    &&& !brace_form(t)
    &&& !bracket_form(t)
    &&& !file_ctor_form(t)
    &&& !folder_ctor_form(t)
    &&& !app_ctor_form(t)
}

/// The string a quoted or bare token denotes: the quotes stripped, or the
/// token itself.
pub open spec fn str_text(t: Seq<char>) -> Seq<char> {
    if quote_form(t) {
        t.subrange(1, t.len() - 1)
    } else {
        t
    }
}

/// A trimmed group token with nothing inside: its nested evaluation has no
/// token or statement to yield a value, so parsing it must fail unless the
/// token happens to be a bound name.
pub open spec fn empty_group_form(t: Seq<char>) -> bool {
    ||| (paren_form(t) && spec_tokenize_expr(t.subrange(1, t.len() - 1)).len() == 0)
    ||| (brace_form(t) && spec_tokenize_program(t.subrange(1, t.len() - 1)).len() == 0)
}

/// A token that parsing must reject against `m`: unbound, not a number,
/// and an empty group.
pub open spec fn failing_token(t: Seq<char>, m: Seq<(Seq<char>, ValueV)>) -> bool {
    !contains_name(m, t) && !is_number_text(t) && empty_group_form(t)
}

/// An expression that evaluation must reject against `m`: no tokens at
/// all, or a single token that parsing must reject.
pub open spec fn failing_expression(program: Seq<char>, m: Seq<(Seq<char>, ValueV)>) -> bool {
    let toks = spec_tokenize_expr(program);
    ||| toks.len() == 0
    ||| (toks.len() == 1 && failing_token(spec_trim(toks[0]), m))
}

/// What parsing one token gives when the token is a leaf: a bound name its
/// binding, a number literal a Number, a quoted literal the quote-stripped
/// string, a bare token itself as a string — and a leaf always succeeds.
pub open spec fn leaf_token_result(
    tok: Seq<char>,
    m: Seq<(Seq<char>, ValueV)>,
    r: Option<Value>,
) -> bool {
    let t = spec_trim(tok);
    &&& (contains_name(m, t) ==> (r matches Option::Some(v) && Option::Some(v.deep_view())
        == lookup(m, t)))
    &&& (!contains_name(m, t) && is_number_text(t) ==> (r matches Option::Some(v)
        && v.deep_view() is Number))
    &&& (!contains_name(m, t) && !is_number_text(t) && quote_form(t) ==> (r
        matches Option::Some(v) && v.deep_view() == ValueV::Str(t.subrange(1, t.len() - 1))))
    &&& (!contains_name(m, t) && bare_form(t) ==> (r matches Option::Some(v) && v.deep_view()
        == ValueV::Str(t)))
    &&& (leaf_form(t) ==> r is Some)
}

/// What value a leaf token denotes: a bound name its binding, a number
/// literal some Number, a quoted literal the quote-stripped string, a bare
/// token itself as a string.
pub open spec fn leaf_value(tok: Seq<char>, m: Seq<(Seq<char>, ValueV)>, v: ValueV) -> bool {
    let t = spec_trim(tok);
    &&& (contains_name(m, t) ==> Option::Some(v) == lookup(m, t))
    &&& (!contains_name(m, t) && is_number_text(t) ==> v is Number)
    &&& (!contains_name(m, t) && !is_number_text(t) && quote_form(t) ==> v == ValueV::Str(
        t.subrange(1, t.len() - 1),
    ))
    &&& (!contains_name(m, t) && bare_form(t) ==> v == ValueV::Str(t))
}

/// What a method call gives, by the receiver token's form, composing the
/// parser's clauses with the dispatch table. `toks` is the whole
/// expression's token list.
pub open spec fn method_call_result(
    toks: Seq<Seq<char>>,
    m: Seq<(Seq<char>, ValueV)>,
    r: Option<Value>,
) -> bool {
    let t0 = spec_trim(toks[0]);
    let mv = toks[1];
    let num_recv = !contains_name(m, t0) && is_number_text(t0);
    let env_num_recv = contains_name(m, t0) && (lookup(m, t0) matches Option::Some(v)
        && v is Number);
    let env_file_recv = contains_name(m, t0) && (lookup(m, t0) matches Option::Some(v)
        && v is File);
    let env_folder_recv = contains_name(m, t0) && (lookup(m, t0) matches Option::Some(v)
        && v is Folder);
    let env_app_recv = contains_name(m, t0) && (lookup(m, t0) matches Option::Some(v)
        && v is App);
    let env_arr_recv = contains_name(m, t0) && (lookup(m, t0) matches Option::Some(v)
        && v is Array);
    let str_recv = !contains_name(m, t0) && !is_number_text(t0) && (quote_form(t0) || bare_form(
        t0,
    ));
    let arr_recv = !contains_name(m, t0) && !is_number_text(t0) && !quote_form(t0) && !paren_form(
        t0,
    ) && !brace_form(t0) && bracket_form(t0);
    let u2 = if toks.len() == 3 {
        spec_trim(toks[2])
    } else {
        Seq::<char>::empty()
    };
    &&& (num_recv && !arith_method(mv) ==> r is None)
    &&& (num_recv && arith_method(mv) && toks.len() == 2 ==> r is None)
    &&& (num_recv && arith_method(mv) && toks.len() == 3 && !contains_name(m, u2)
        && is_number_text(u2) ==> (r matches Option::Some(x) && x.deep_view() is Number))
    &&& (num_recv && arith_method(mv) && toks.len() == 3 && !contains_name(m, u2) && bare_form(u2)
        && !number_coercible(ValueV::Str(u2)) ==> r is None)
    &&& (env_num_recv && !arith_method(mv) ==> r is None)
    &&& (env_num_recv && arith_method(mv) && toks.len() == 2 ==> r is None)
    &&& (env_num_recv && arith_method(mv) && toks.len() == 3 && !contains_name(m, u2)
        && is_number_text(u2) ==> (r matches Option::Some(x) && x.deep_view() is Number))
    &&& (env_file_recv ==> ((mv == "Read-String"@ && toks.len() == 2 ==> (r
        matches Option::Some(x) && x.deep_view() is Str)) && (mv != "Read-String"@ ==> r
        is None)))
    &&& (env_folder_recv ==> ((mv == "Item-List"@ && toks.len() == 2 ==> (r
        matches Option::Some(x) && x.deep_view() is Array)) && (mv != "Item-List"@ ==> r
        is None)))
    &&& (env_app_recv ==> r is None)
    &&& (env_arr_recv ==> ((mv == "Length"@ && toks.len() == 2 ==> (r matches Option::Some(x)
        && x.deep_view() is Number)) && (mv != "Index"@ && mv != "Length"@ ==> r is None)))
    &&& (contains_name(m, t0) ==> (lookup(m, t0) matches Option::Some(ValueV::Str(s0)) ==> {
        &&& (mv != "+"@ ==> r is None)
        &&& (mv == "+"@ && toks.len() == 2 ==> r is None)
        &&& (mv == "+"@ && toks.len() == 3 && !contains_name(m, u2) && !is_number_text(u2)
            && quote_form(u2) ==> (r matches Option::Some(x) && x.deep_view() == ValueV::Str(
            s0 + str_text(u2),
        )))
        &&& (mv == "+"@ && toks.len() == 3 && !contains_name(m, u2) && bare_form(u2) ==> (r
            matches Option::Some(x) && x.deep_view() == ValueV::Str(s0 + u2)))
    }))
    &&& (str_recv && mv != "+"@ ==> r is None)
    &&& (str_recv && mv == "+"@ && toks.len() == 2 ==> r is None)
    &&& (str_recv && mv == "+"@ && toks.len() == 3 && !contains_name(m, u2) && !is_number_text(u2)
        && quote_form(u2) ==> (r matches Option::Some(x) && x.deep_view() == ValueV::Str(
        str_text(t0) + str_text(u2),
    )))
    &&& (str_recv && mv == "+"@ && toks.len() == 3 && !contains_name(m, u2) && bare_form(u2) ==> (
    r matches Option::Some(x) && x.deep_view() == ValueV::Str(str_text(t0) + u2)))
    &&& (failing_token(t0, m) ==> r is None)
    &&& ((exists|j: int|
        2 <= j < toks.len() && failing_token(spec_trim(#[trigger] toks[j]), m)) ==> r is None)
    &&& (arr_recv && mv != "Index"@ && mv != "Length"@ ==> r is None)
    &&& (arr_recv && mv == "Length"@ && toks.len() == 2 && (forall|i: int|
        0 <= i < spec_tokenize_expr(t0.subrange(1, t0.len() - 1)).len() ==> leaf_form(
            spec_trim(#[trigger] spec_tokenize_expr(t0.subrange(1, t0.len() - 1))[i]),
        )) ==> (r matches Option::Some(x) && x.deep_view() is Number))
}

/// What evaluating one expression gives, to one level of nesting: an empty
/// token list fails, a single leaf token gives that token's value, a
/// method call follows the dispatch table.
pub open spec fn expression_result(
    program: Seq<char>,
    m: Seq<(Seq<char>, ValueV)>,
    r: Option<Value>,
) -> bool {
    let toks = spec_tokenize_expr(program);
    &&& (toks.len() == 0 ==> r is None)
    &&& (toks.len() == 1 ==> leaf_token_result(toks[0], m, r))
    &&& (toks.len() >= 2 ==> method_call_result(toks, m, r))
}

/// A statement whose expression part is a single leaf token, so evaluating
/// it cannot fail.
pub open spec fn leaf_stmt(s: Seq<Seq<char>>) -> bool {
    s.len() >= 1 && {
        let toks = spec_tokenize_expr(s[s.len() - 1]);
        toks.len() == 1 && leaf_form(spec_trim(toks[0]))
    }
}

/// An assignment whose right-hand side must fail when reached as statement
/// `i` of the program: its expression has no tokens, or one token that is
/// an empty group and cannot be a binding — unbound at the start and not
/// the name of any earlier assignment.
pub open spec fn assignment_must_fail(
    stmts: Seq<Seq<Seq<char>>>,
    i: int,
    m0: Seq<(Seq<char>, ValueV)>,
) -> bool {
    stmts[i].len() == 2 && {
        let toks = spec_tokenize_expr(stmts[i][1]);
        ||| toks.len() == 0
        ||| (toks.len() == 1 && {
            let u = spec_trim(toks[0]);
            &&& !contains_name(m0, u)
            &&& (forall|j: int|
                0 <= j < i && (#[trigger] stmts[j]).len() == 2 ==> spec_trim(stmts[j][0]) != u)
            &&& !is_number_text(u)
            &&& empty_group_form(u)
        })
    }
}

/// Statement `i0` is an assignment of a number: its right-hand side is a
/// single number literal that no binding can shadow — unbound at the
/// start, and not the name of any earlier assignment.
pub open spec fn number_assignment(
    stmts: Seq<Seq<Seq<char>>>,
    i0: int,
    m0: Seq<(Seq<char>, ValueV)>,
) -> bool {
    stmts[i0].len() == 2 && {
        let toks = spec_tokenize_expr(stmts[i0][1]);
        toks.len() == 1 && {
            let u = spec_trim(toks[0]);
            &&& !contains_name(m0, u)
            &&& (forall|j: int|
                0 <= j < i0 && (#[trigger] stmts[j]).len() == 2 ==> spec_trim(stmts[j][0]) != u)
            &&& is_number_text(u)
        }
    }
}

/// The name was bound to a Number by an earlier number assignment that no
/// later assignment before statement `i` shadows.
pub open spec fn bound_number_name(
    stmts: Seq<Seq<Seq<char>>>,
    i: int,
    m0: Seq<(Seq<char>, ValueV)>,
    nm: Seq<char>,
) -> bool {
    exists|i0: int|
        0 <= i0 < i && #[trigger] number_assignment(stmts, i0, m0) && spec_trim(stmts[i0][0]) == nm
            && (forall|j: int|
            i0 < j < i && (#[trigger] stmts[j]).len() == 2 ==> spec_trim(stmts[j][0]) != nm)
}

/// A token that must evaluate to a Number when reached as statement `i`:
/// it cannot be a binding (unbound at the start, named by no earlier
/// assignment), and it is either a number literal or a parenthesized
/// arithmetic call on an earlier number binding with a number-literal
/// argument.
pub open spec fn number_rhs_token(
    stmts: Seq<Seq<Seq<char>>>,
    i: int,
    m0: Seq<(Seq<char>, ValueV)>,
    u: Seq<char>,
) -> bool {
    &&& !contains_name(m0, u)
    &&& (forall|j: int|
        0 <= j < i && (#[trigger] stmts[j]).len() == 2 ==> spec_trim(stmts[j][0]) != u)
    &&& ({
        ||| is_number_text(u)
        ||| (paren_form(u) && !is_number_text(u) && {
        let itoks = spec_tokenize_expr(u.subrange(1, u.len() - 1));
        &&& itoks.len() == 3
        &&& arith_method(itoks[1])
        &&& bound_number_name(stmts, i, m0, spec_trim(itoks[0]))
        &&& !contains_name(m0, spec_trim(itoks[2]))
        &&& (forall|j: int|
            0 <= j < i && (#[trigger] stmts[j]).len() == 2 ==> spec_trim(stmts[j][0]) != spec_trim(
                itoks[2],
            ))
        &&& is_number_text(spec_trim(itoks[2]))
    })
    })
}

/// An assignment that must bind a Number when reached as statement `i`.
pub open spec fn number_producing_assignment(
    stmts: Seq<Seq<Seq<char>>>,
    i: int,
    m0: Seq<(Seq<char>, ValueV)>,
) -> bool {
    stmts[i].len() == 2 && {
        let toks = spec_tokenize_expr(stmts[i][1]);
        toks.len() == 1 && number_rhs_token(stmts, i, m0, spec_trim(toks[0]))
    }
}

/// A statement whose evaluation must succeed when reached as statement
/// `i`: a leaf statement, or a number-producing assignment.
pub open spec fn decided_stmt(
    stmts: Seq<Seq<Seq<char>>>,
    i: int,
    m0: Seq<(Seq<char>, ValueV)>,
) -> bool {
    leaf_stmt(stmts[i]) || number_producing_assignment(stmts, i, m0)
}

/// A token that must evaluate to a Number does so: against an environment
/// that grew from `m0` only by the program's own earlier assignment names,
/// and in which every unshadowed number assignment is bound to a Number,
/// the parse of such a token yields a Number.
proof fn lemma_number_rhs_gives_number(
    stmts: Seq<Seq<Seq<char>>>,
    i: int,
    m0: Seq<(Seq<char>, ValueV)>,
    mcur: Seq<(Seq<char>, ValueV)>,
    tok: Seq<char>,
    r: Option<Value>,
)
    requires
        number_rhs_token(stmts, i, m0, spec_trim(tok)),
        parsed_token_result(tok, mcur, r),
        forall|k: Seq<char>|
            contains_name(mcur, k) ==> contains_name(m0, k) || exists|j: int|
                0 <= j < i && (#[trigger] stmts[j]).len() == 2 && spec_trim(stmts[j][0]) == k,
        forall|i0: int|
            0 <= i0 < i && #[trigger] number_producing_assignment(stmts, i0, m0) && (forall|j: int|
                i0 < j < i && (#[trigger] stmts[j]).len() == 2 ==> spec_trim(stmts[j][0])
                    != spec_trim(stmts[i0][0])) ==> (lookup(mcur, spec_trim(stmts[i0][0]))
                matches Option::Some(v) && v is Number),
    ensures
        r matches Option::Some(v) && v.deep_view() is Number,
{
    let u = spec_trim(tok);
    if contains_name(mcur, u) {
        assert(false);
    }
    if !is_number_text(u) {
        let inner = u.subrange(1, u.len() - 1);
        let itoks = spec_tokenize_expr(inner);
        let nm0 = spec_trim(itoks[0]);
        let i0 = choose|i0: int|
            0 <= i0 < i && #[trigger] number_assignment(stmts, i0, m0) && spec_trim(stmts[i0][0])
                == nm0 && (forall|j: int|
                i0 < j < i && (#[trigger] stmts[j]).len() == 2 ==> spec_trim(stmts[j][0]) != nm0);
        assert(number_assignment(stmts, i0, m0));
        assert(number_producing_assignment(stmts, i0, m0));
        assert(lookup(mcur, nm0) matches Option::Some(v) && v is Number);
        let u2 = spec_trim(itoks[2]);
        if contains_name(mcur, u2) {
            assert(false);
        }
        assert(expression_result(inner, mcur, r));
        assert(method_call_result(itoks, mcur, r));
    }
}

/// What running a statement sequence gives: an empty program gives
/// nothing; a program of leaf statements cannot fail; a program of bare
/// expressions gives the last expression's result over the starting
/// environment; and a program of leaf statements ending in a bare name
/// whose latest assignment was a number assignment gives that Number back.
pub open spec fn sequence_result(
    source: Seq<char>,
    m: Seq<(Seq<char>, ValueV)>,
    r: Option<Value>,
) -> bool {
    let stmts = spec_tokenize_program(source);
    &&& (stmts.len() == 0 ==> r is None)
    &&& (stmts.len() > 0 && (forall|i: int|
        0 <= i < stmts.len() ==> #[trigger] decided_stmt(stmts, i, m)) ==> r is Some)
    &&& (stmts.len() > 0 && (forall|i: int|
        0 <= i < stmts.len() ==> (#[trigger] stmts[i]).len() == 1) ==> expression_result(
        stmts[stmts.len() - 1][0],
        m,
        r,
    ))
    &&& (stmts.len() > 0 && (forall|i: int|
        0 <= i < stmts.len() ==> #[trigger] decided_stmt(stmts, i, m)) && stmts[stmts.len()
        - 1].len() == 1 && spec_tokenize_expr(stmts[stmts.len() - 1][0]).len() == 1 && (exists|
        i0: int,
    |
        0 <= i0 < stmts.len() && #[trigger] number_producing_assignment(stmts, i0, m) && spec_trim(
            stmts[i0][0],
        ) == spec_trim(spec_tokenize_expr(stmts[stmts.len() - 1][0])[0]) && (forall|j: int|
            i0 < j < stmts.len() && (#[trigger] stmts[j]).len() == 2 ==> spec_trim(stmts[j][0])
                != spec_trim(stmts[i0][0]))) ==> (r matches Option::Some(v)
        && v.deep_view() is Number))
}

/// A constructor interior that is one text-valued leaf token, so the
/// construction cannot fail.
pub open spec fn single_textual(program: Seq<char>, m: Seq<(Seq<char>, ValueV)>) -> bool {
    let toks = spec_tokenize_expr(program);
    toks.len() == 1 && {
        let u = spec_trim(toks[0]);
        !contains_name(m, u) && (is_number_text(u) || quote_form(u) || bare_form(u))
    }
}

/// Everything parsing one token promises: the leaf cases exactly; for the
/// recursive forms, what the nested evaluation's own one-level clauses
/// give, the shape of a successful result, and success whenever the
/// interior is simple enough to be decided by the engine alone.
pub open spec fn parsed_token_result(
    tok: Seq<char>,
    m: Seq<(Seq<char>, ValueV)>,
    r: Option<Value>,
) -> bool {
    let t = spec_trim(tok);
    let deeper = !contains_name(m, t) && !is_number_text(t) && !quote_form(t);
    &&& leaf_token_result(tok, m, r)
    &&& (deeper && paren_form(t) ==> expression_result(t.subrange(1, t.len() - 1), m, r))
    &&& (deeper && !paren_form(t) && brace_form(t) ==> sequence_result(
        t.subrange(1, t.len() - 1),
        m,
        r,
    ))
    &&& (deeper && !paren_form(t) && !brace_form(t) && bracket_form(t) ==> {
        let elems = spec_tokenize_expr(t.subrange(1, t.len() - 1));
        &&& (r is None || r.unwrap().deep_view() is Array)
        &&& ((forall|i: int|
            0 <= i < elems.len() ==> leaf_form(spec_trim(#[trigger] elems[i]))) ==> (r
            matches Option::Some(v) && v.deep_view() matches ValueV::Array(es) && es.len()
            == elems.len() && forall|i: int|
            0 <= i < elems.len() ==> leaf_value(#[trigger] elems[i], m, es[i])))
        &&& ((exists|i: int|
            0 <= i < elems.len() && failing_token(spec_trim(#[trigger] elems[i]), m)) ==> r
            is None)
    })
    &&& (deeper && !paren_form(t) && !brace_form(t) && !bracket_form(t) && file_ctor_form(t) ==> {
        &&& (r is None || r.unwrap().deep_view() is File)
        &&& (single_textual(t.subrange(5, t.len() - 1), m) ==> (r matches Option::Some(v)
            && v.deep_view() is File))
        &&& (failing_expression(t.subrange(5, t.len() - 1), m) ==> r is None)
    })
    &&& (deeper && !paren_form(t) && !brace_form(t) && !bracket_form(t) && !file_ctor_form(t)
        && folder_ctor_form(t) ==> {
        &&& (r is None || r.unwrap().deep_view() is Folder)
        &&& (single_textual(t.subrange(7, t.len() - 1), m) ==> (r matches Option::Some(v)
            && v.deep_view() is Folder))
        &&& (failing_expression(t.subrange(7, t.len() - 1), m) ==> r is None)
    })
    &&& (deeper && !paren_form(t) && !brace_form(t) && !bracket_form(t) && !file_ctor_form(t)
        && !folder_ctor_form(t) && app_ctor_form(t) ==> {
        let inner = t.subrange(4, t.len() - 1);
        let u0 = spec_trim(spec_tokenize_expr(inner)[0]);
        &&& (r is None || r.unwrap().deep_view() is App)
        &&& (single_textual(inner, m) ==> (r matches Option::Some(v) && v.deep_view() is App))
        &&& (single_textual(inner, m) && !is_number_text(u0) && quote_form(u0) ==> (r
            matches Option::Some(v) && v.deep_view() == ValueV::App(str_text(u0))))
        &&& (single_textual(inner, m) && bare_form(u0) ==> (r matches Option::Some(v)
            && v.deep_view() == ValueV::App(u0)))
        &&& (failing_expression(inner, m) ==> r is None)
    })
}

/// The interactive session's engine: the environment, and the evaluator
/// that works on it.
pub struct Shell {
    pub memory: Memory,
}

impl Value {
    /// Turns one token into a value against a snapshot of the environment,
    /// in resolution order: a bound name gives its value; a number literal
    /// a Number; a quoted literal a Str with the outer quotes stripped; a
    /// parenthesized token evaluates its interior; a braced token runs its
    /// interior as statements on its own snapshot; a bracketed token parses
    /// each element; a constructor form builds a handle; anything else is
    /// the token itself as a Str. An absent result is a soft fault of a
    /// nested evaluation.
    pub fn parse<H: EffectHandler>(source: &str, memory: &Memory, h: &mut H) -> (r: Option<Value>)
        ensures
            parsed_token_result(source@, memory@, r),
        decreases source@.len(), 0nat,
    {
        let t = trim_str(source);
        let n = t.unicode_len();
        match memory.get_copy(t) {
            Option::Some(v) => Option::Some(v),
            Option::None => {
                if is_number_token(t) {
                    Option::Some(Value::Number(h.num_from_text(t)))
                } else if n >= 2 && t.get_char(0) == '"' && t.get_char(n - 1) == '"' {
                    Option::Some(Value::Str(t.substring_char(1, n - 1).to_owned()))
                } else if n >= 2 && t.get_char(0) == '(' && t.get_char(n - 1) == ')' {
                    let mut child = Shell { memory: memory.snapshot() };
                    child.eval(t.substring_char(1, n - 1), h)
                } else if n >= 2 && t.get_char(0) == '{' && t.get_char(n - 1) == '}' {
                    let mut child = Shell { memory: memory.snapshot() };
                    child.run(t.substring_char(1, n - 1), h)
                } else if n >= 2 && t.get_char(0) == '[' && t.get_char(n - 1) == ']' {
                    let inner = t.substring_char(1, n - 1);
                    let elems = tokenize_expr(inner);
                    let mut arr: Vec<Value> = Vec::new();
                    let mut i: usize = 0;
                    while i < elems.len()
                        invariant
                            t@ == spec_trim(source@),
                            !contains_name(memory@, t@),
                            !is_number_text(t@),
                            bracket_form(t@),
                            inner@ == t@.subrange(1, t@.len() - 1),
                            elems.deep_view() == spec_tokenize_expr(inner@),
                            spec_tokenize_expr(inner@).len() == elems@.len(),
                            arr@.len() == i,
                            0 <= i <= elems@.len(),
                            forall|j: int|
                                0 <= j < i ==> leaf_value(
                                    spec_tokenize_expr(inner@)[j],
                                    memory@,
                                    (#[trigger] arr@[j]).deep_view(),
                                ),
                            forall|j: int|
                                0 <= j < i ==> !failing_token(
                                    spec_trim(#[trigger] spec_tokenize_expr(inner@)[j]),
                                    memory@,
                                ),
                            forall|j: int|
                                0 <= j < elems.deep_view().len() ==> (
                                #[trigger] elems.deep_view()[j]).len() <= inner@.len(),
                            inner@.len() < source@.len(),
                        decreases elems@.len() - i,
                    {
                        proof {
                            assert(elems@[i as int]@ == elems.deep_view()[i as int]);
                        }
                        match Value::parse(elems[i].as_str(), memory, h) {
                            Option::Some(v) => arr.push(v),
                            Option::None => {
                                proof {
                                    let gelems = spec_tokenize_expr(inner@);
                                    assert(!leaf_form(spec_trim(gelems[i as int])));
                                }
                                return Option::None;
                            },
                        }
                        i += 1;
                    }
                    proof {
                        crate::value::lemma_shapes_of_index(arr@);
                    }
                    Option::Some(Value::Array(arr))
                } else if n >= 6 && t.get_char(0) == 'F' && t.get_char(1) == 'i' && t.get_char(2)
                    == 'l' && t.get_char(3) == 'e' && t.get_char(4) == '(' && t.get_char(n - 1)
                    == ')' {
                    let mut child = Shell { memory: memory.snapshot() };
                    match child.eval(t.substring_char(5, n - 1), h) {
                        Option::None => Option::None,
                        Option::Some(v) => match v.get_string(h) {
                            Option::None => Option::None,
                            Option::Some(text) => match File::new(text.as_str(), h) {
                                Option::Some(f) => Option::Some(Value::File(f)),
                                Option::None => Option::None,
                            },
                        },
                    }
                } else if n >= 8 && t.get_char(0) == 'F' && t.get_char(1) == 'o' && t.get_char(2)
                    == 'l' && t.get_char(3) == 'd' && t.get_char(4) == 'e' && t.get_char(5) == 'r'
                    && t.get_char(6) == '(' && t.get_char(n - 1) == ')' {
                    let mut child = Shell { memory: memory.snapshot() };
                    match child.eval(t.substring_char(7, n - 1), h) {
                        Option::None => Option::None,
                        Option::Some(v) => match v.get_string(h) {
                            Option::None => Option::None,
                            Option::Some(text) => Option::Some(
                                Value::Folder(Folder::new(text.as_str(), h)),
                            ),
                        },
                    }
                } else if n >= 5 && t.get_char(0) == 'A' && t.get_char(1) == 'p' && t.get_char(2)
                    == 'p' && t.get_char(3) == '(' && t.get_char(n - 1) == ')' {
                    let mut child = Shell { memory: memory.snapshot() };
                    match child.eval(t.substring_char(4, n - 1), h) {
                        Option::None => Option::None,
                        Option::Some(v) => match v.get_string(h) {
                            Option::None => Option::None,
                            Option::Some(text) => Option::Some(Value::App(App::new(text))),
                        },
                    }
                } else {
                    Option::Some(Value::Str(t.to_owned()))
                }
            },
        }
    }
}

/// Selects the behavior of a method call by the receiver's runtime
/// variant. An unknown method for the variant, a missing argument, or an
/// argument that does not coerce to the required type is a soft fault: no
/// result, and no effect where the coercion fails before any effect.
#[verifier::rlimit(100)]
pub fn dispatch<H: EffectHandler>(obj: Value, method: &str, args: &Vec<Value>, h: &mut H) -> (r:
    Option<Value>)
    ensures
        obj.deep_view() is File ==> ((method@ == "Read-String"@ ==> (r matches Option::Some(x)
            && x.deep_view() is Str)) && (method@ != "Read-String"@ ==> r is None)),
        obj.deep_view() is Folder ==> ((method@ == "Item-List"@ ==> (r matches Option::Some(x)
            && x.deep_view() matches ValueV::Array(es) && forall|i: int|
                0 <= i < es.len() ==> ((#[trigger] es[i]) is File || es[i] is Folder))) && (method@
            != "Item-List"@ ==> r is None)),
        obj.deep_view() is App ==> r is None,
        obj.deep_view() is Number ==> ((arith_method(method@) && args@.len() > 0
            && number_coercible(args@[0].deep_view()) ==> (r matches Option::Some(x)
            && x.deep_view() is Number)) && (!arith_method(method@) || args@.len() == 0
            || !number_coercible(args@[0].deep_view()) ==> r is None)),
        obj.deep_view() matches ValueV::Str(s) ==> {
            &&& (method@ == "+"@ && args@.len() > 0 ==> (args@[0].deep_view()
                matches ValueV::Str(s2) ==> (r matches Option::Some(x) && x.deep_view()
                == ValueV::Str(s + s2))))
            &&& (method@ == "+"@ && args@.len() > 0 ==> (args@[0].deep_view()
                matches ValueV::File(p) ==> (r matches Option::Some(x) && x.deep_view()
                == ValueV::Str(s + p))))
            &&& (method@ == "+"@ && args@.len() > 0 ==> (args@[0].deep_view()
                matches ValueV::Folder(p) ==> (r matches Option::Some(x) && x.deep_view()
                == ValueV::Str(s + p))))
            &&& (method@ == "+"@ && args@.len() > 0 && args@[0].deep_view() is Number ==> (r
                matches Option::Some(x) && x.deep_view() is Str))
            &&& (method@ == "+"@ && (args@.len() == 0 || !text_coercible(args@[0].deep_view()))
                ==> r is None)
            &&& (method@ != "+"@ ==> r is None)
        },
        obj.deep_view() matches ValueV::Array(a) ==> {
            &&& (method@ == "Length"@ ==> (r matches Option::Some(x) && x.deep_view() is Number))
            &&& (method@ == "Index"@ && args@.len() > 0 && number_coercible(args@[0].deep_view())
                ==> (r is None || exists|i: int|
                    0 <= i < a.len() && r.unwrap().deep_view() == a[i]))
            &&& (method@ == "Index"@ && (args@.len() == 0 || !number_coercible(
                args@[0].deep_view(),
            )) ==> r is None)
            &&& (method@ != "Index"@ && method@ != "Length"@ ==> r is None)
        },
{
    let ghost gv = obj.deep_view();
    match obj {
        Value::File(file) => {
            if str_eq(method, "Read-String") {
                Option::Some(Value::Str(file.read(h)))
            } else if str_eq(method, "Open") {
                file.open(h);
                Option::None
            } else if str_eq(method, "Write-String") {
                if args.len() == 0 {
                    return Option::None;
                }
                match args[0].get_string(h) {
                    Option::None => Option::None,
                    Option::Some(text) => {
                        file.write(text.as_str(), h);
                        Option::None
                    },
                }
            } else if str_eq(method, "Rename") {
                if args.len() == 0 {
                    return Option::None;
                }
                match args[0].get_string(h) {
                    Option::None => Option::None,
                    Option::Some(text) => {
                        let mut file = file;
                        file.rename(text, h);
                        Option::None
                    },
                }
            } else if str_eq(method, "Delete") {
                file.delete(h);
                Option::None
            } else {
                Option::None
            }
        },
        Value::Folder(folder) => {
            if str_eq(method, "Item-List") {
                let items = folder.item_list(h);
                proof {
                    crate::value::lemma_shapes_of_index(items@);
                    assert forall|i: int| 0 <= i < shapes_of(items@).len() implies ((
                    #[trigger] shapes_of(items@)[i]) is File || shapes_of(items@)[i] is Folder) by {
                        assert(shapes_of(items@)[i] == items@[i].shape());
                    }
                }
                Option::Some(Value::Array(items))
            } else if str_eq(method, "Rename") {
                if args.len() == 0 {
                    return Option::None;
                }
                match args[0].get_string(h) {
                    Option::None => Option::None,
                    Option::Some(text) => {
                        let mut folder = folder;
                        folder.rename(text, h);
                        Option::None
                    },
                }
            } else if str_eq(method, "Delete") {
                folder.delete(h);
                Option::None
            } else {
                Option::None
            }
        },
        Value::App(app) => {
            if str_eq(method, "Start") {
                // Every argument is coerced to text; one that does not
                // coerce becomes the empty string.
                let mut texts: Vec<String> = Vec::new();
                let mut i: usize = 0;
                while i < args.len()
                    decreases args@.len() - i,
                {
                    match args[i].get_string(h) {
                        Option::Some(text) => texts.push(text),
                        Option::None => texts.push(String::new()),
                    }
                    i += 1;
                }
                app.start_with_arg(texts, h);
                Option::None
            } else {
                Option::None
            }
        },
        Value::Number(a) => {
            let op = if str_eq(method, "+") {
                Option::Some(ArithOp::Add)
            } else if str_eq(method, "-") {
                Option::Some(ArithOp::Sub)
            } else if str_eq(method, "*") {
                Option::Some(ArithOp::Mul)
            } else if str_eq(method, "/") {
                Option::Some(ArithOp::Div)
            } else if str_eq(method, "%") {
                Option::Some(ArithOp::Rem)
            } else if str_eq(method, "^") {
                Option::Some(ArithOp::Pow)
            } else {
                Option::None
            };
            match op {
                Option::None => Option::None,
                Option::Some(op) => {
                    if args.len() == 0 {
                        return Option::None;
                    }
                    match args[0].get_number(h) {
                        Option::None => Option::None,
                        Option::Some(b) => Option::Some(Value::Number(h.arith(op, a, b))),
                    }
                },
            }
        },
        Value::Str(s) => {
            if str_eq(method, "+") {
                if args.len() == 0 {
                    return Option::None;
                }
                match args[0].get_string(h) {
                    Option::None => Option::None,
                    Option::Some(text) => Option::Some(Value::Str(s.concat(text.as_str()))),
                }
            } else if str_eq(method, "PrintLn") {
                h.print_line(s.as_str());
                Option::None
            } else {
                Option::None
            }
        },
        Value::Array(arr) => {
            proof {
                assert(gv == ValueV::Array(shapes_of(arr@)));
            }
            let r = dispatch_array(arr, method, args, h);
            proof {
                match gv {
                    ValueV::Array(a) => {
                        assert(a == shapes_of(arr@));
                    },
                    _ => {},
                }
            }
            r
        },
    }
}

/// The Array methods: bounds-checked `Index` by a number argument, and
/// `Length`.
fn dispatch_array<H: EffectHandler>(arr: Vec<Value>, method: &str, args: &Vec<Value>, h: &mut H) -> (r:
    Option<Value>)
    ensures
        method@ == "Length"@ ==> (r matches Option::Some(x) && x.deep_view() is Number),
        method@ == "Index"@ && args@.len() > 0 && number_coercible(args@[0].deep_view()) ==> (r
            is None || exists|i: int|
            0 <= i < shapes_of(arr@).len() && r.unwrap().deep_view() == shapes_of(arr@)[i]),
        method@ == "Index"@ && (args@.len() == 0 || !number_coercible(args@[0].deep_view())) ==> r
            is None,
        method@ != "Index"@ && method@ != "Length"@ ==> r is None,
{
    proof {
        reveal_strlit("Index");
        reveal_strlit("Length");
        assert("Index"@.len() != "Length"@.len());
    }
    if str_eq(method, "Index") {
        if args.len() == 0 {
            return Option::None;
        }
        match args[0].get_number(h) {
            Option::None => Option::None,
            Option::Some(b) => {
                let idx = h.num_to_index(b);
                let selected = index_select(&arr, idx);
                proof {
                    crate::value::lemma_shapes_of_index(arr@);
                    if idx < arr@.len() {
                        assert(selected.unwrap().deep_view() == shapes_of(arr@)[idx as int]);
                    }
                }
                selected
            },
        }
    } else if str_eq(method, "Length") {
        Option::Some(Value::Number(h.num_from_len(arr.len())))
    } else {
        Option::None
    }
}

/// Bounds-checked element access: exactly the element at `idx` when it is
/// in range, nothing when it is out of range. The index itself is the
/// handler's truncation of the argument number; everything after that
/// truncation is decided here.
pub fn index_select(arr: &Vec<Value>, idx: usize) -> (r: Option<Value>)
    ensures
        idx < arr@.len() ==> (r matches Option::Some(v) && v.deep_view() == shapes_of(
            arr@,
        )[idx as int]),
        idx >= arr@.len() ==> r is None,
{
    if idx < arr.len() {
        proof {
            crate::value::lemma_shapes_of_index(arr@);
        }
        Option::Some(arr[idx].duplicate())
    } else {
        Option::None
    }
}

impl Shell {
    /// A session engine over the given environment.
    pub fn new(memory: Memory) -> (r: Shell)
        ensures
            r.memory@ == memory@,
    {
        Shell { memory }
    }

    /// Re-applies the working directory from the `Current-Folder` binding;
    /// gives nothing when the binding is absent or not a Folder.
    pub fn set_current_folder<H: EffectHandler>(&self, h: &mut H) -> (r: Option<()>)
        ensures
            r is Some <==> (lookup(self.memory@, "Current-Folder"@) matches Option::Some(v)
                && v is Folder),
    {
        match self.memory.get_copy("Current-Folder") {
            Option::None => Option::None,
            Option::Some(v) => match v {
                Value::Folder(f) => {
                    h.set_current_dir(f.path.as_str());
                    Option::Some(())
                },
                _ => Option::None,
            },
        }
    }

    /// Evaluates one expression: the first token is the receiver; with no
    /// further tokens the receiver itself is the result; otherwise the
    /// second token names the method and the remaining tokens are parsed
    /// as arguments against the same snapshot, and the call is dispatched
    /// by the receiver's variant. The environment is never changed.
    pub fn eval<H: EffectHandler>(&mut self, program: &str, h: &mut H) -> (r: Option<Value>)
        ensures
            final(self).memory@ == old(self).memory@,
            ({
                let toks = spec_tokenize_expr(program@);
                let m = old(self).memory@;
                &&& (toks.len() == 0 ==> r is None)
                &&& (toks.len() == 1 ==> parsed_token_result(toks[0], m, r))
                &&& (toks.len() >= 2 ==> method_call_result(toks, m, r))
            }),
        decreases program@.len(), 1nat,
    {
        let tokens = tokenize_expr(program);
        if tokens.len() == 0 {
            return Option::None;
        }
        proof {
            assert(tokens@[0]@ == tokens.deep_view()[0]);
        }
        let obj = match Value::parse(tokens[0].as_str(), &self.memory, h) {
            Option::Some(v) => v,
            Option::None => {
                return Option::None;
            },
        };
        if tokens.len() > 1 {
            let ghost gtoks = spec_tokenize_expr(program@);
            let mut args: Vec<Value> = Vec::new();
            let mut i: usize = 2;
            while i < tokens.len()
                invariant
                    2 <= i <= tokens@.len(),
                    self.memory@ == old(self).memory@,
                    tokens.deep_view() == gtoks,
                    gtoks == spec_tokenize_expr(program@),
                    gtoks.len() == tokens@.len(),
                    args@.len() == i - 2,
                    parsed_token_result(gtoks[0], old(self).memory@, Option::Some(obj)),
                    forall|j: int|
                        0 <= j < args@.len() ==> parsed_token_result(
                            gtoks[j + 2],
                            old(self).memory@,
                            Option::Some(#[trigger] args@[j]),
                        ),
                    forall|j: int|
                        0 <= j < gtoks.len() ==> (#[trigger] gtoks[j]).len() <= program@.len(),
                decreases tokens@.len() - i,
            {
                proof {
                    assert(tokens@[i as int]@ == tokens.deep_view()[i as int]);
                }
                match Value::parse(tokens[i].as_str(), &self.memory, h) {
                    Option::Some(v) => args.push(v),
                    Option::None => {
                        return Option::None;
                    },
                }
                i += 1;
            }
            proof {
                assert(tokens@[1]@ == tokens.deep_view()[1]);
                if exists|j: int|
                    2 <= j < gtoks.len() && failing_token(
                        spec_trim(#[trigger] gtoks[j]),
                        old(self).memory@,
                    ) {
                    let j = choose|j: int|
                        2 <= j < gtoks.len() && failing_token(
                            spec_trim(#[trigger] gtoks[j]),
                            old(self).memory@,
                        );
                    assert(parsed_token_result(
                        gtoks[j],
                        old(self).memory@,
                        Option::Some(args@[j - 2]),
                    ));
                    assert(false);
                }
            }
            dispatch(obj, tokens[1].as_str(), &args, h)
        } else {
            Option::Some(obj)
        }
    }

    /// Runs a statement sequence. Before each statement the working
    /// directory is re-applied from `Current-Folder`. A bare expression's
    /// value becomes the running result; an assignment evaluates its
    /// right-hand side, aborts the whole run with no binding when it
    /// fails, and otherwise binds the trimmed name. Only assignment
    /// statements ever change the environment, and every name bound was
    /// some assignment's name.
    pub fn run<H: EffectHandler>(&mut self, source: &str, h: &mut H) -> (r: Option<Value>)
        ensures
            sequence_result(source@, old(self).memory@, r),
            ({
                let stmts = spec_tokenize_program(source@);
                let m0 = old(self).memory@;
                let m1 = final(self).memory@;
                &&& (stmts.len() == 0 ==> r is None && m1 == m0)
                &&& ((forall|i: int| 0 <= i < stmts.len() ==> (#[trigger] stmts[i]).len() == 1)
                    ==> m1 == m0)
                &&& (forall|k: Seq<char>|
                    contains_name(m1, k) ==> contains_name(m0, k) || exists|i: int|
                        0 <= i < stmts.len() && (#[trigger] stmts[i]).len() == 2 && spec_trim(
                            stmts[i][0],
                        ) == k)
                &&& (forall|k: Seq<char>| contains_name(m0, k) ==> contains_name(m1, k))
                &&& (stmts.len() > 0 && stmts[stmts.len() - 1].len() == 2 && r is Some ==> lookup(
                    m1,
                    spec_trim(stmts[stmts.len() - 1][0]),
                ) == Option::Some(r.unwrap().deep_view()))
                &&& (r is Some ==> forall|i: int|
                    0 <= i < stmts.len() && (#[trigger] stmts[i]).len() == 2 ==> contains_name(
                        m1,
                        spec_trim(stmts[i][0]),
                    ))
                &&& ((exists|i: int|
                    0 <= i < stmts.len() && assignment_must_fail(stmts, i, m0) && (forall|j: int|
                        0 <= j < i ==> leaf_stmt(#[trigger] stmts[j]))) ==> r is None)
                &&& (r is Some ==> forall|i0: int|
                    0 <= i0 < stmts.len() && #[trigger] number_producing_assignment(
                        stmts,
                        i0,
                        m0,
                    ) && (forall|j: int|
                        i0 < j < stmts.len() && (#[trigger] stmts[j]).len() == 2 ==> spec_trim(
                            stmts[j][0],
                        ) != spec_trim(stmts[i0][0])) ==> (lookup(m1, spec_trim(stmts[i0][0]))
                        matches Option::Some(v) && v is Number))
                &&& (forall|i: int|
                    0 <= i < stmts.len() && (#[trigger] stmts[i]).len() == 2 && (forall|j: int|
                        0 <= j <= i ==> leaf_stmt(#[trigger] stmts[j])) ==> contains_name(
                        m1,
                        spec_trim(stmts[i][0]),
                    ))
            }),
        decreases source@.len(), 2nat,
    {
        let stmts = tokenize_program(source);
        let ghost gstmts = spec_tokenize_program(source@);
        let mut result: Option<Value> = Option::None;
        let mut i: usize = 0;
        while i < stmts.len()
            invariant
                0 <= i <= stmts@.len(),
                i == 0 ==> result is None,
                stmts.deep_view() == gstmts,
                gstmts.len() == stmts@.len(),
                gstmts == spec_tokenize_program(source@),
                forall|j: int| 0 <= j < gstmts.len() ==> 1 <= (#[trigger] gstmts[j]).len() <= 2,
                forall|j: int, k: int|
                    0 <= j < gstmts.len() && 0 <= k < gstmts[j].len() ==> (
                    #[trigger] gstmts[j][k]).len() <= source@.len(),
                ((forall|j: int| 0 <= j < i ==> (#[trigger] gstmts[j]).len() == 1)
                    ==> self.memory@ == old(self).memory@),
                forall|k: Seq<char>|
                    contains_name(self.memory@, k) ==> contains_name(old(self).memory@, k)
                        || exists|j: int|
                        0 <= j < i && (#[trigger] gstmts[j]).len() == 2 && spec_trim(gstmts[j][0])
                            == k,
                forall|k: Seq<char>|
                    contains_name(old(self).memory@, k) ==> contains_name(self.memory@, k),
                (i > 0 && gstmts[i - 1].len() == 2 ==> (result matches Option::Some(v) && lookup(
                    self.memory@,
                    spec_trim(gstmts[i - 1][0]),
                ) == Option::Some(v.deep_view()))),
                forall|j: int|
                    0 <= j < i && (#[trigger] gstmts[j]).len() == 2 ==> contains_name(
                        self.memory@,
                        spec_trim(gstmts[j][0]),
                    ),
                ((forall|j: int|
                    0 <= j < i ==> #[trigger] decided_stmt(gstmts, j, old(self).memory@)) && i > 0
                    ==> result is Some),
                forall|j: int|
                    0 <= j < i ==> !assignment_must_fail(gstmts, j, old(self).memory@),
                (i > 0 && gstmts[i - 1].len() == 1 ==> expression_result(
                    gstmts[i - 1][0],
                    self.memory@,
                    result,
                )),
                forall|i0: int|
                    0 <= i0 < i && #[trigger] number_producing_assignment(
                        gstmts,
                        i0,
                        old(self).memory@,
                    ) && (forall|j: int|
                        i0 < j < i && (#[trigger] gstmts[j]).len() == 2 ==> spec_trim(gstmts[j][0])
                            != spec_trim(gstmts[i0][0])) ==> (lookup(
                        self.memory@,
                        spec_trim(gstmts[i0][0]),
                    ) matches Option::Some(v) && v is Number),
                ((forall|j: int| 0 <= j < i ==> (#[trigger] gstmts[j]).len() == 1) && i > 0
                    ==> expression_result(gstmts[i - 1][0], old(self).memory@, result)),
            decreases stmts@.len() - i,
        {
            let _ = self.set_current_folder(h);
            proof {
                assert(gstmts[i as int] == stmts@[i as int].deep_view());
                assert(stmts@[i as int]@.len() == gstmts[i as int].len());
                assert(gstmts[i as int][0] == stmts@[i as int]@[0]@);
                assert(gstmts[i as int][0].len() <= source@.len());
                if gstmts[i as int].len() == 2 {
                    assert(gstmts[i as int][1] == stmts@[i as int]@[1]@);
                    assert(gstmts[i as int][1].len() <= source@.len());
                }
            }
            let stmt_len = stmts[i].len();
            if stmt_len == 2 {
                result = self.eval(stmts[i][1].as_str(), h);
                match &result {
                    Option::None => {
                        proof {
                            assert(!leaf_stmt(gstmts[i as int]));
                            if number_producing_assignment(gstmts, i as int, old(self).memory@) {
                                let toks = spec_tokenize_expr(gstmts[i as int][1]);
                                lemma_number_rhs_gives_number(
                                    gstmts,
                                    i as int,
                                    old(self).memory@,
                                    self.memory@,
                                    toks[0],
                                    result,
                                );
                                assert(false);
                            }
                            assert(!decided_stmt(gstmts, i as int, old(self).memory@));
                        }
                        return Option::None;
                    },
                    Option::Some(v) => {
                        let name = trim_str(stmts[i][0].as_str());
                        let ghost gname = name@;
                        let copy = v.duplicate();
                        let ghost gcopy = copy.deep_view();
                        let ghost m_prev = self.memory@;
                        self.memory.insert(name.to_owned(), copy);
                        proof {
                            assert(self.memory@ == m_prev.push((gname, gcopy)));
                            assert(gname == spec_trim(gstmts[i as int][0]));
                            assert forall|k: Seq<char>|
                                contains_name(self.memory@, k) implies contains_name(
                                old(self).memory@,
                                k,
                            ) || exists|j: int|
                                0 <= j < i + 1 && (#[trigger] gstmts[j]).len() == 2 && spec_trim(
                                    gstmts[j][0],
                                ) == k by {
                                crate::memory::lemma_lookup_push(m_prev, (gname, gcopy), k);
                                if k == gname {
                                    assert(0 <= i < i + 1 && (gstmts[i as int]).len() == 2
                                        && spec_trim(gstmts[i as int][0]) == k);
                                }
                            }
                            assert forall|k: Seq<char>|
                                contains_name(old(self).memory@, k) implies contains_name(
                                self.memory@,
                                k,
                            ) by {
                                crate::memory::lemma_lookup_push(m_prev, (gname, gcopy), k);
                            }
                            assert forall|j: int|
                                0 <= j < i + 1 && (#[trigger] gstmts[j]).len()
                                    == 2 implies contains_name(
                                self.memory@,
                                spec_trim(gstmts[j][0]),
                            ) by {
                                crate::memory::lemma_lookup_push(
                                    m_prev,
                                    (gname, gcopy),
                                    spec_trim(gstmts[j][0]),
                                );
                            }
                            crate::memory::lemma_lookup_push(m_prev, (gname, gcopy), gname);
                            if assignment_must_fail(gstmts, i as int, old(self).memory@) {
                                let toks = spec_tokenize_expr(gstmts[i as int][1]);
                                if toks.len() == 1 {
                                    let u = spec_trim(toks[0]);
                                    assert(!contains_name(m_prev, u));
                                }
                                assert(false);
                            }
                            assert forall|i0: int|
                                0 <= i0 < i + 1 && #[trigger] number_producing_assignment(
                                    gstmts,
                                    i0,
                                    old(self).memory@,
                                ) && (forall|j: int|
                                    i0 < j < i + 1 && (#[trigger] gstmts[j]).len() == 2
                                        ==> spec_trim(gstmts[j][0]) != spec_trim(
                                        gstmts[i0][0],
                                    )) implies (lookup(self.memory@, spec_trim(gstmts[i0][0]))
                                matches Option::Some(v) && v is Number) by {
                                let nm = spec_trim(gstmts[i0][0]);
                                crate::memory::lemma_lookup_push(m_prev, (gname, gcopy), nm);
                                if i0 == i {
                                    let toks = spec_tokenize_expr(gstmts[i as int][1]);
                                    lemma_number_rhs_gives_number(
                                        gstmts,
                                        i as int,
                                        old(self).memory@,
                                        m_prev,
                                        toks[0],
                                        result,
                                    );
                                    assert(gcopy is Number);
                                } else {
                                    assert(spec_trim(gstmts[i as int][0]) != nm);
                                }
                            }
                        }
                    },
                }
            } else {
                result = self.eval(stmts[i][0].as_str(), h);
                proof {
                    if decided_stmt(gstmts, i as int, old(self).memory@) {
                        assert(leaf_stmt(gstmts[i as int]));
                        assert(result is Some);
                    }
                }
            }
            i += 1;
        }
        result
    }
}

} // verus!
