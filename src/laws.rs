use vstd::prelude::*;
use crate::eval::{
    is_run, prints, reaches, runs, shows, shows_number, spec_command, step, ArithOp, Command,
};
use crate::machine::{spec_error_text, spec_line, MachineView, StackError, ValueView};
use crate::text::spec_is_space;
use crate::token::{
    lemma_quote_end_bounds, lemma_word_end_bounds, lexemes, lexemes_from, quote_end,
    Lexeme, TokenView,
};

verus! {

/// A run that fails at its first token stops there: it ends in the state and with
/// the error of that token's step.
proof fn lemma_stops_at_first<N, A: Fn(ArithOp, N, N) -> N, S: Fn(N) -> String>(
    arith: A,
    show: S,
    pre: MachineView<N>,
    toks: Seq<TokenView<N>>,
    post: MachineView<N>,
    res: Result<(), StackError>,
)
    requires
        toks.len() > 0,
        runs(arith, show, pre, toks, post, res),
        forall|q: MachineView<N>| !#[trigger] step(arith, show, pre, toks[0], q, None),
    ensures
        res is Err,
        step(arith, show, pre, toks[0], post, Some(res->Err_0)),
{
    match res {
        Ok(_) => {
            let states = choose|states: Seq<MachineView<N>>|
                #[trigger] is_run(arith, show, states, toks) && states[0] == pre && states.last()
                    == post;
            assert(step(arith, show, states[0], toks[0], states[1], None));
        },
        Err(e) => {
            let (k, mid) = choose|k: int, mid: MachineView<N>|
                0 <= k < toks.len() && #[trigger] reaches(arith, show, pre, toks.take(k), mid)
                    && step(arith, show, mid, toks[k], post, Some(e));
            let states = choose|states: Seq<MachineView<N>>|
                #[trigger] is_run(arith, show, states, toks.take(k)) && states[0] == pre
                    && states.last() == mid;
            if k > 0 {
                assert(toks.take(k)[0] == toks[0]);
                assert(step(arith, show, states[0], toks.take(k)[0], states[1], None));
            }
        },
    }
}

/// A word that the machine does not know ends the run at once, whatever follows it:
/// the error is `UnknownWord` and the machine is left as it was.
pub proof fn law_unknown_word_aborts<N, A: Fn(ArithOp, N, N) -> N, S: Fn(N) -> String>(
    arith: A,
    show: S,
    pre: MachineView<N>,
    w: Seq<char>,
    rest: Seq<TokenView<N>>,
    post: MachineView<N>,
    res: Result<(), StackError>,
)
    requires
        spec_command(w) == Command::Unknown,
        runs(arith, show, pre, seq![TokenView::Word(w)] + rest, post, res),
    ensures
        res == Err::<(), StackError>(StackError::UnknownWord),
        post == pre,
{
    let toks = seq![TokenView::Word(w)] + rest;
    assert(toks[0] == TokenView::<N>::Word(w));
    lemma_stops_at_first(arith, show, pre, toks, post, res);
}

/// `+` on a stack of two or more values whose top value is a string ends the run
/// at once, whatever follows it: the error is `TypeMismatch`, the two operands are
/// gone and nothing more is printed.
pub proof fn law_add_text_on_top_aborts<N, A: Fn(ArithOp, N, N) -> N, S: Fn(N) -> String>(
    arith: A,
    show: S,
    pre: MachineView<N>,
    rest: Seq<TokenView<N>>,
    post: MachineView<N>,
    res: Result<(), StackError>,
)
    requires
        pre.values.len() >= 2,
        pre.values.last() is String,
        runs(arith, show, pre, seq![TokenView::Word("+"@)] + rest, post, res),
    ensures
        res == Err::<(), StackError>(StackError::TypeMismatch),
        post.values == pre.values.subrange(0, pre.values.len() - 2),
        post.output == pre.output,
{
    let toks = seq![TokenView::Word("+"@)] + rest;
    assert(toks[0] == TokenView::<N>::Word("+"@));
    reveal_strlit("+");
    reveal_strlit(".");
    reveal_strlit(".s");
    assert("+"@[0] != "."@[0]);
    assert("+"@.len() != ".s"@.len());
    assert(spec_command("+"@) == Command::Arith(ArithOp::Add));
    lemma_stops_at_first(arith, show, pre, toks, post, res);
}

/// `.` on an empty stack does not end the run: it prints the report of
/// `Underflow` as a line and leaves the stack empty.
pub proof fn law_print_on_empty_goes_on<N, A: Fn(ArithOp, N, N) -> N, S: Fn(N) -> String>(
    arith: A,
    show: S,
    pre: MachineView<N>,
    post: MachineView<N>,
    res: Result<(), StackError>,
)
    requires
        pre.values.len() == 0,
        runs(arith, show, pre, seq![TokenView::Word("."@)], post, res),
    ensures
        res is Ok,
        post.values.len() == 0,
        post.output == pre.output + spec_line(spec_error_text(StackError::Underflow)),
{
    let toks = seq![TokenView::<N>::Word("."@)];
    assert(toks[0] == TokenView::<N>::Word("."@));
    match res {
        Ok(_) => {
            let states = choose|states: Seq<MachineView<N>>|
                #[trigger] is_run(arith, show, states, toks) && states[0] == pre && states.last()
                    == post;
            assert(step(arith, show, states[0], toks[0], states[1], None));
        },
        Err(e) => {
            let (k, mid) = choose|k: int, mid: MachineView<N>|
                0 <= k < toks.len() && #[trigger] reaches(arith, show, pre, toks.take(k), mid)
                    && step(arith, show, mid, toks[k], post, Some(e));
            assert(k == 0);
        },
    }
}

/// A number followed by `.` prints that number back: the run goes on, the stack is
/// as before, and one line is added that the formatter may give for the number.
pub proof fn law_number_prints_back<N, A: Fn(ArithOp, N, N) -> N, S: Fn(N) -> String>(
    arith: A,
    show: S,
    pre: MachineView<N>,
    n: N,
    post: MachineView<N>,
    res: Result<(), StackError>,
)
    requires
        runs(arith, show, pre, seq![TokenView::Number(n), TokenView::Word("."@)], post, res),
    ensures
        res is Ok,
        post.values == pre.values,
        exists|text: Seq<char>|
            #[trigger] shows_number(show, n, text) && post.output == pre.output + spec_line(text),
{
    let toks = seq![TokenView::<N>::Number(n), TokenView::<N>::Word("."@)];
    assert(toks[0] == TokenView::<N>::Number(n));
    assert(toks[1] == TokenView::<N>::Word("."@));
    let pushed = MachineView { values: pre.values.push(ValueView::Number(n)), output: pre.output };
    assert(pushed.values.drop_last() =~= pre.values);
    match res {
        Ok(_) => {
            let states = choose|states: Seq<MachineView<N>>|
                #[trigger] is_run(arith, show, states, toks) && states[0] == pre && states.last()
                    == post;
            assert(step(arith, show, states[0], toks[0], states[1], None));
            assert(step(arith, show, states[1], toks[1], states[2], None));
            assert(states[1] == pushed);
        },
        Err(e) => {
            let (k, mid) = choose|k: int, mid: MachineView<N>|
                0 <= k < toks.len() && #[trigger] reaches(arith, show, pre, toks.take(k), mid)
                    && step(arith, show, mid, toks[k], post, Some(e));
            if k == 1 {
                let states = choose|states: Seq<MachineView<N>>|
                    #[trigger] is_run(arith, show, states, toks.take(k)) && states[0] == pre
                        && states.last() == mid;
                assert(toks.take(k)[0] == toks[0]);
                assert(step(arith, show, states[0], toks.take(k)[0], states[1], None));
            }
        },
    }
}

/// An empty source text has no tokens.
pub proof fn law_empty_source()
    ensures
        lexemes(Seq::empty()) == Seq::<Lexeme>::empty(),
{
}

/// A quote that is never closed opens a string that runs to the end of the text.
pub proof fn law_unterminated_string(t: Seq<char>)
    requires
        forall|i: int| 0 <= i < t.len() ==> t[i] != '"',
    ensures
        lexemes(seq!['"'] + t) == seq![Lexeme::Quoted(t)],
{
    let s = seq!['"'] + t;
    assert(s[0] == '"');
    assert(!spec_is_space('"'));
    lemma_quote_end_bounds(s, 1);
    if quote_end(s, 1) < s.len() {
        assert(s[quote_end(s, 1)] == t[quote_end(s, 1) - 1]);
    }
    assert(s.subrange(1, s.len() as int) =~= t);
    assert(lexemes_from(s, s.len() as int) == Seq::<Lexeme>::empty());
    assert(lexemes(s) =~= seq![Lexeme::Quoted(t)]);
}

/// A text that is one run of non-whitespace characters, not opened by a quote, is
/// one bare word: the number parser sees it whole.
pub proof fn law_single_word(w: Seq<char>)
    requires
        w.len() > 0,
        w[0] != '"',
        forall|i: int| 0 <= i < w.len() ==> !spec_is_space(#[trigger] w[i]),
    ensures
        lexemes(w) == seq![Lexeme::Bare(w)],
{
    lemma_word_end_bounds(w, 0);
    assert(w.subrange(0, w.len() as int) =~= w);
    assert(lexemes_from(w, w.len() as int) == Seq::<Lexeme>::empty());
    assert(lexemes(w) =~= seq![Lexeme::Bare(w)]);
}

proof fn lemma_step_extends<N, A: Fn(ArithOp, N, N) -> N, S: Fn(N) -> String>(
    arith: A,
    show: S,
    pre: MachineView<N>,
    tok: TokenView<N>,
    post: MachineView<N>,
    err: Option<StackError>,
)
    requires
        step(arith, show, pre, tok, post, err),
    ensures
        pre.output.is_prefix_of(post.output),
{
    if post.output != pre.output {
        if pre.values.len() > 0 && prints(show, pre, pre.values.last(), post) {
            let text = choose|text: Seq<char>|
                #[trigger] shows(show, pre.values.last(), text) && post.output == pre.output
                    + spec_line(text);
            assert((pre.output + spec_line(text)).subrange(0, pre.output.len() as int)
                =~= pre.output);
        } else {
            let text = spec_error_text(StackError::Underflow);
            assert((pre.output + spec_line(text)).subrange(0, pre.output.len() as int)
                =~= pre.output);
        }
    }
}

proof fn lemma_run_extends<N, A: Fn(ArithOp, N, N) -> N, S: Fn(N) -> String>(
    arith: A,
    show: S,
    states: Seq<MachineView<N>>,
    toks: Seq<TokenView<N>>,
    k: int,
)
    requires
        is_run(arith, show, states, toks),
        0 <= k <= toks.len(),
    ensures
        states[0].output.is_prefix_of(states[k].output),
    decreases k,
{
    if k > 0 {
        lemma_run_extends(arith, show, states, toks, k - 1);
        assert(step(arith, show, states[k - 1], toks[k - 1], states[k], None));
        lemma_step_extends(arith, show, states[k - 1], toks[k - 1], states[k], None);
    }
}

/// The output only grows: whatever a run does, and wherever it stops, the output
/// it started with is a prefix of the output it leaves.
pub proof fn law_output_only_grows<N, A: Fn(ArithOp, N, N) -> N, S: Fn(N) -> String>(
    arith: A,
    show: S,
    pre: MachineView<N>,
    toks: Seq<TokenView<N>>,
    post: MachineView<N>,
    res: Result<(), StackError>,
)
    requires
        runs(arith, show, pre, toks, post, res),
    ensures
        pre.output.is_prefix_of(post.output),
{
    match res {
        Ok(_) => {
            let states = choose|states: Seq<MachineView<N>>|
                #[trigger] is_run(arith, show, states, toks) && states[0] == pre && states.last()
                    == post;
            lemma_run_extends(arith, show, states, toks, toks.len() as int);
        },
        Err(e) => {
            let (k, mid) = choose|k: int, mid: MachineView<N>|
                0 <= k < toks.len() && #[trigger] reaches(arith, show, pre, toks.take(k), mid)
                    && step(arith, show, mid, toks[k], post, Some(e));
            let states = choose|states: Seq<MachineView<N>>|
                #[trigger] is_run(arith, show, states, toks.take(k)) && states[0] == pre
                    && states.last() == mid;
            lemma_run_extends(arith, show, states, toks.take(k), k);
            lemma_step_extends(arith, show, mid, toks[k], post, Some(e));
        },
    }
}

} // verus!
