//! The two tokenizers: the statement lexer that splits raw program text into
//! statements (bare expressions or assignments), and the expression lexer
//! that splits one expression into whitespace-separated tokens while keeping
//! bracketed and quoted text together.
//!
//! Each lexer is specified as a character-at-a-time state machine over
//! `Seq<char>`; the executable functions are proved to produce exactly the
//! tokens of that machine.
use vstd::prelude::*;

use crate::text::{is_separator_char, push_char, separator_char};

verus! {

/// State of the expression lexer: finished tokens, the token being built,
/// the combined `(`/`[`/`{` nesting depth, and the quote flag.
pub struct ExprLexState {
    pub tokens: Seq<Seq<char>>,
    pub cur: Seq<char>,
    pub depth: nat,
    pub quote: bool,
}

/// An opening bracket of any of the three kinds.
pub open spec fn is_opener(c: char) -> bool {
    c == '(' || c == '[' || c == '{'
}

/// A closing bracket of any of the three kinds.
pub open spec fn is_closer(c: char) -> bool {
    c == ')' || c == ']' || c == '}'
}

/// The expression lexer's starting state.
pub open spec fn expr_lex_init() -> ExprLexState {
    ExprLexState { tokens: Seq::empty(), cur: Seq::empty(), depth: 0, quote: false }
}

/// Ends the current token at a separator, dropping it if empty.
pub open spec fn expr_lex_flush(st: ExprLexState) -> ExprLexState {
    if st.cur.len() > 0 {
        ExprLexState { tokens: st.tokens.push(st.cur), cur: Seq::empty(), ..st }
    } else {
        st
    }
}

/// One character of the expression lexer. An opener deepens the nesting; the
/// closer that returns to depth zero ends the token at once, as does a
/// closing quote; a closer at depth zero is dropped; separators split only
/// outside nesting and quotes.
pub open spec fn expr_lex_step(st: ExprLexState, c: char) -> ExprLexState {
    if is_opener(c) && !st.quote {
        ExprLexState { cur: st.cur.push(c), depth: st.depth + 1, ..st }
    } else if is_closer(c) && !st.quote {
        if st.depth == 0 {
            st
        } else if st.depth == 1 {
            ExprLexState {
                tokens: st.tokens.push(st.cur.push(c)),
                cur: Seq::empty(),
                depth: 0,
                ..st
            }
        } else {
            ExprLexState { cur: st.cur.push(c), depth: (st.depth - 1) as nat, ..st }
        }
    } else if c == '"' {
        if st.depth == 0 {
            if st.quote {
                ExprLexState {
                    tokens: st.tokens.push(st.cur.push(c)),
                    cur: Seq::empty(),
                    quote: false,
                    ..st
                }
            } else {
                ExprLexState { cur: st.cur.push(c), quote: true, ..st }
            }
        } else {
            ExprLexState { cur: st.cur.push(c), ..st }
        }
    } else if is_separator_char(c) {
        if st.depth != 0 || st.quote {
            ExprLexState { cur: st.cur.push(c), ..st }
        } else {
            expr_lex_flush(st)
        }
    } else {
        ExprLexState { cur: st.cur.push(c), ..st }
    }
}

/// The lexer state after consuming all of `s`.
pub open spec fn expr_lex_run(s: Seq<char>) -> ExprLexState
    decreases s.len(),
{
    if s.len() == 0 {
        expr_lex_init()
    } else {
        expr_lex_step(expr_lex_run(s.drop_last()), s.last())
    }
}

/// The tokens of one expression: the run's tokens, plus the trailing token
/// when it is non-empty and closed (no open nesting, no open quote).
pub open spec fn spec_tokenize_expr(s: Seq<char>) -> Seq<Seq<char>> {
    let st = expr_lex_run(s);
    if st.depth == 0 && !st.quote && st.cur.len() > 0 {
        st.tokens.push(st.cur)
    } else {
        st.tokens
    }
}

/// Every buffer of the state is at most `n` characters long.
pub open spec fn expr_lex_bounded(st: ExprLexState, n: nat) -> bool {
    &&& st.cur.len() <= n
    &&& forall|i: int| 0 <= i < st.tokens.len() ==> (#[trigger] st.tokens[i]).len() <= n
}

proof fn lemma_expr_lex_run_bounded(s: Seq<char>)
    ensures
        expr_lex_bounded(expr_lex_run(s), s.len()),
    decreases s.len(),
{
    if s.len() > 0 {
        lemma_expr_lex_run_bounded(s.drop_last());
    }
}

/// No token of an expression is longer than the expression itself.
pub proof fn lemma_expr_tokens_bounded(s: Seq<char>)
    ensures
        forall|i: int|
            0 <= i < spec_tokenize_expr(s).len() ==> (#[trigger] spec_tokenize_expr(s)[i]).len()
                <= s.len(),
{
    lemma_expr_lex_run_bounded(s);
}

/// Splits one expression's text into tokens. Whitespace separates tokens
/// only outside `(...)`, `[...]`, `{...}` and double quotes; a quoted
/// literal or a bracketed group ends its token as soon as it closes; an
/// unmatched closer is dropped; an unterminated group or quote drops the
/// partial trailing token.
pub fn tokenize_expr(input: &str) -> (r: Vec<String>)
    ensures
        r.deep_view() == spec_tokenize_expr(input@),
        forall|i: int|
            0 <= i < r.deep_view().len() ==> (#[trigger] r.deep_view()[i]).len() <= input@.len(),
{
    let n = input.unicode_len();
    let mut tokens: Vec<String> = Vec::new();
    let mut cur: String = String::new();
    let mut depth: usize = 0;
    let mut quote: bool = false;
    let mut i: usize = 0;
    proof {
        assert(input@.take(0) =~= Seq::<char>::empty());
        assert(Seq::new(tokens@.len(), |j: int| tokens@[j]@) =~= Seq::<Seq<char>>::empty());
    }
    while i < n
        invariant
            0 <= i <= n,
            n == input@.len(),
            depth <= i,
            expr_lex_run(input@.take(i as int)) == (ExprLexState {
                tokens: Seq::new(tokens@.len(), |j: int| tokens@[j]@),
                cur: cur@,
                depth: depth as nat,
                quote: quote,
            }),
        decreases n - i,
    {
        let ghost pre_state = expr_lex_run(input@.take(i as int));
        let ghost pre_tokens = Seq::new(tokens@.len(), |j: int| tokens@[j]@);
        let c = input.get_char(i);
        if (c == '(' || c == '[' || c == '{') && !quote {
            push_char(&mut cur, c);
            depth = depth + 1;
        } else if (c == ')' || c == ']' || c == '}') && !quote {
            if depth == 1 {
                push_char(&mut cur, c);
                tokens.push(cur);
                cur = String::new();
                depth = 0;
            } else if depth != 0 {
                push_char(&mut cur, c);
                depth = depth - 1;
            }
        } else if c == '"' {
            if depth == 0 {
                if quote {
                    push_char(&mut cur, c);
                    tokens.push(cur);
                    cur = String::new();
                    quote = false;
                } else {
                    push_char(&mut cur, c);
                    quote = true;
                }
            } else {
                push_char(&mut cur, c);
            }
        } else if separator_char(c) {
            if depth != 0 || quote {
                push_char(&mut cur, c);
            } else if cur.unicode_len() != 0 {
                tokens.push(cur);
                cur = String::new();
            }
        } else {
            push_char(&mut cur, c);
        }
        i = i + 1;
        proof {
            let t1 = input@.take(i as int);
            assert(t1.drop_last() =~= input@.take(i - 1));
            assert(t1.last() == input@[i - 1]);
            assert(expr_lex_run(t1) == expr_lex_step(pre_state, c));
            assert(Seq::new(tokens@.len(), |j: int| tokens@[j]@) =~=
                expr_lex_step(pre_state, c).tokens);
        }
    }
    proof {
        assert(input@.take(n as int) =~= input@);
    }
    if depth == 0 && !quote && cur.unicode_len() != 0 {
        tokens.push(cur);
    }
    proof {
        lemma_expr_tokens_bounded(input@);
        assert(tokens.deep_view() =~= spec_tokenize_expr(input@));
    }
    tokens
}

/// State of the statement lexer: finished statements, the name buffer, the
/// expression buffer that fills after the first unnested `=`, the `=` flag,
/// the `{`/`}` nesting depth, and the quote flag.
pub struct StmtLexState {
    pub stmts: Seq<Seq<Seq<char>>>,
    pub name: Seq<char>,
    pub expr: Seq<char>,
    pub eq: bool,
    pub depth: int,
    pub quote: bool,
}

/// The statement lexer's starting state.
pub open spec fn stmt_lex_init() -> StmtLexState {
    StmtLexState {
        stmts: Seq::empty(),
        name: Seq::empty(),
        expr: Seq::empty(),
        eq: false,
        depth: 0,
        quote: false,
    }
}

/// Appends a character to whichever buffer is accumulating.
pub open spec fn stmt_lex_push(st: StmtLexState, c: char) -> StmtLexState {
    if st.eq {
        StmtLexState { expr: st.expr.push(c), ..st }
    } else {
        StmtLexState { name: st.name.push(c), ..st }
    }
}

/// One character of the statement lexer. Only `{` and `}` nest; `;` ends a
/// statement and `=` starts its expression part only at depth zero outside
/// quotes; a second unnested `=` is ordinary expression text.
pub open spec fn stmt_lex_step(st: StmtLexState, c: char) -> StmtLexState {
    if c == '{' && !st.quote {
        StmtLexState { depth: st.depth + 1, ..stmt_lex_push(st, c) }
    } else if c == '}' && !st.quote {
        StmtLexState { depth: st.depth - 1, ..stmt_lex_push(st, c) }
    } else if c == ';' && !st.quote {
        if st.depth != 0 {
            stmt_lex_push(st, c)
        } else if st.name.len() > 0 {
            if st.eq {
                StmtLexState {
                    stmts: st.stmts.push(seq![st.name, st.expr]),
                    name: Seq::empty(),
                    expr: Seq::empty(),
                    eq: false,
                    ..st
                }
            } else {
                StmtLexState { stmts: st.stmts.push(seq![st.name]), name: Seq::empty(), ..st }
            }
        } else {
            st
        }
    } else if c == '=' && !st.quote {
        if st.depth != 0 {
            stmt_lex_push(st, c)
        } else if !st.eq {
            StmtLexState { eq: true, ..st }
        } else {
            StmtLexState { expr: st.expr.push(c), ..st }
        }
    } else if c == '"' {
        StmtLexState { quote: !st.quote, ..stmt_lex_push(st, c) }
    } else {
        stmt_lex_push(st, c)
    }
}

/// The lexer state after consuming all of `s`.
pub open spec fn stmt_lex_run(s: Seq<char>) -> StmtLexState
    decreases s.len(),
{
    if s.len() == 0 {
        stmt_lex_init()
    } else {
        stmt_lex_step(stmt_lex_run(s.drop_last()), s.last())
    }
}

/// The statements of a program: the run's statements, plus the trailing
/// unterminated statement when its name buffer is non-empty and all braces
/// are closed.
pub open spec fn spec_tokenize_program(s: Seq<char>) -> Seq<Seq<Seq<char>>> {
    let st = stmt_lex_run(s);
    if st.depth == 0 && st.name.len() > 0 {
        if st.eq {
            st.stmts.push(seq![st.name, st.expr])
        } else {
            st.stmts.push(seq![st.name])
        }
    } else {
        st.stmts
    }
}

/// Every statement has one or two parts, each at most `n` characters long,
/// and the buffers are bounded too.
pub open spec fn stmt_lex_bounded(st: StmtLexState, n: nat) -> bool {
    &&& st.name.len() <= n
    &&& st.expr.len() <= n
    &&& -(n as int) <= st.depth <= n as int
    &&& forall|i: int|
        0 <= i < st.stmts.len() ==> 1 <= (#[trigger] st.stmts[i]).len() <= 2
    &&& forall|i: int, k: int|
        0 <= i < st.stmts.len() && 0 <= k < st.stmts[i].len() ==> (#[trigger] st.stmts[i][k]).len()
            <= n
}

proof fn lemma_stmt_lex_run_bounded(s: Seq<char>)
    ensures
        stmt_lex_bounded(stmt_lex_run(s), s.len()),
    decreases s.len(),
{
    if s.len() > 0 {
        lemma_stmt_lex_run_bounded(s.drop_last());
    }
}

/// Every statement of a program has one or two parts, none longer than the
/// program text itself.
pub proof fn lemma_stmt_parts_bounded(s: Seq<char>)
    ensures
        forall|i: int|
            0 <= i < spec_tokenize_program(s).len() ==> 1 <= (
            #[trigger] spec_tokenize_program(s)[i]).len() <= 2,
        forall|i: int, k: int|
            0 <= i < spec_tokenize_program(s).len() && 0 <= k < spec_tokenize_program(s)[i].len()
                ==> (#[trigger] spec_tokenize_program(s)[i][k]).len() <= s.len(),
{
    lemma_stmt_lex_run_bounded(s);
}

/// Splits raw program text into statements. Each statement is either a
/// one-part bare expression or a two-part assignment, split at the first
/// unnested, unquoted `=`; `;` separates statements only outside `{...}`
/// nesting and quotes; a trailing statement left open by an unmatched `{`
/// is dropped.
pub fn tokenize_program(input: &str) -> (r: Vec<Vec<String>>)
    ensures
        r.deep_view() == spec_tokenize_program(input@),
        forall|i: int|
            0 <= i < r.deep_view().len() ==> 1 <= (#[trigger] r.deep_view()[i]).len() <= 2,
        forall|i: int, k: int|
            0 <= i < r.deep_view().len() && 0 <= k < r.deep_view()[i].len() ==> (
            #[trigger] r.deep_view()[i][k]).len() <= input@.len(),
{
    let n = input.unicode_len();
    let mut stmts: Vec<Vec<String>> = Vec::new();
    let mut name: String = String::new();
    let mut expr: String = String::new();
    let mut eq: bool = false;
    let mut depth: i128 = 0;
    let mut quote: bool = false;
    let mut i: usize = 0;
    proof {
        assert(input@.take(0) =~= Seq::<char>::empty());
        assert(Seq::new(stmts@.len(), |j: int| Seq::new(stmts@[j]@.len(), |k: int| stmts@[j]@[k]@))
            =~= Seq::<Seq<Seq<char>>>::empty());
    }
    while i < n
        invariant
            0 <= i <= n,
            n == input@.len(),
            -(i as int) <= depth <= i as int,
            stmt_lex_run(input@.take(i as int)) == (StmtLexState {
                stmts: Seq::new(
                    stmts@.len(),
                    |j: int| Seq::new(stmts@[j]@.len(), |k: int| stmts@[j]@[k]@),
                ),
                name: name@,
                expr: expr@,
                eq: eq,
                depth: depth as int,
                quote: quote,
            }),
        decreases n - i,
    {
        let ghost pre_state = stmt_lex_run(input@.take(i as int));
        let c = input.get_char(i);
        if c == '{' && !quote {
            if eq {
                push_char(&mut expr, c);
            } else {
                push_char(&mut name, c);
            }
            depth = depth + 1;
        } else if c == '}' && !quote {
            if eq {
                push_char(&mut expr, c);
            } else {
                push_char(&mut name, c);
            }
            depth = depth - 1;
        } else if c == ';' && !quote {
            if depth != 0 {
                if eq {
                    push_char(&mut expr, c);
                } else {
                    push_char(&mut name, c);
                }
            } else if name.unicode_len() != 0 {
                let mut stmt: Vec<String> = Vec::new();
                stmt.push(name);
                if eq {
                    stmt.push(expr);
                    eq = false;
                    expr = String::new();
                }
                stmts.push(stmt);
                name = String::new();
            }
        } else if c == '=' && !quote {
            if depth != 0 {
                if eq {
                    push_char(&mut expr, c);
                } else {
                    push_char(&mut name, c);
                }
            } else if !eq {
                eq = true;
            } else {
                push_char(&mut expr, '=');
            }
        } else if c == '"' {
            quote = !quote;
            if eq {
                push_char(&mut expr, c);
            } else {
                push_char(&mut name, c);
            }
        } else {
            if eq {
                push_char(&mut expr, c);
            } else {
                push_char(&mut name, c);
            }
        }
        i = i + 1;
        proof {
            let t1 = input@.take(i as int);
            assert(t1.drop_last() =~= input@.take(i - 1));
            assert(t1.last() == input@[i - 1]);
            assert(stmt_lex_run(t1) == stmt_lex_step(pre_state, c));
            assert(Seq::new(
                stmts@.len(),
                |j: int| Seq::new(stmts@[j]@.len(), |k: int| stmts@[j]@[k]@),
            ) =~~= stmt_lex_step(pre_state, c).stmts);
        }
    }
    proof {
        assert(input@.take(n as int) =~= input@);
    }
    if depth == 0 && name.unicode_len() != 0 {
        let mut stmt: Vec<String> = Vec::new();
        stmt.push(name);
        if eq {
            stmt.push(expr);
        }
        stmts.push(stmt);
    }
    proof {
        lemma_stmt_parts_bounded(input@);
        assert(stmts.deep_view() =~~= spec_tokenize_program(input@));
    }
    stmts
}

} // verus!
