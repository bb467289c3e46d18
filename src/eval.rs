use vstd::prelude::*;
use crate::machine::{
    spec_error_text, spec_line, MachineView, Stack, StackError, StackValue, ValueView,
};
use crate::token::{tokenize, tokens_of, Token, TokenView};

verus! {

/// The four arithmetic operators of the machine.
#[derive(Debug, Clone, Copy, PartialEq, Eq, Structural)]
pub enum ArithOp {
    Add,
    Sub,
    Mul,
    Div,
}

/// What a word asks the machine to do.
#[derive(Debug, Clone, Copy, PartialEq, Eq, Structural)]
pub enum Command {
    /// `.`: pop the top value and print it.
    Print,
    /// `.s`: print the top value, leaving it in place.
    PrintTop,
    /// `+`, `-`, `*`, `/`.
    Arith(ArithOp),
    /// Any other word.
    Unknown,
}

/// The command that the word `w` names.
pub open spec fn spec_command(w: Seq<char>) -> Command {
    if w == "."@ {
        Command::Print
    } else if w == ".s"@ {
        Command::PrintTop
    } else if w == "+"@ {
        Command::Arith(ArithOp::Add)
    } else if w == "-"@ {
        Command::Arith(ArithOp::Sub)
    } else if w == "*"@ {
        Command::Arith(ArithOp::Mul)
    } else if w == "/"@ {
        Command::Arith(ArithOp::Div)
    } else {
        Command::Unknown
    }
}

/// Whether the texts `a` and `b` are the same.
pub fn same_text(a: &str, b: &str) -> (r: bool)
    ensures
        r == (a@ == b@),
{
    let n = a.unicode_len();
    if n != b.unicode_len() {
        return false;
    }
    let mut i: usize = 0;
    while i < n
        invariant
            n == a@.len(),
            n == b@.len(),
            i <= n,
            a@.subrange(0, i as int) == b@.subrange(0, i as int),
        decreases n - i,
    {
        if a.get_char(i) != b.get_char(i) {
            assert(a@[i as int] != b@[i as int]);
            return false;
        }
        assert(a@.subrange(0, i + 1) =~= a@.subrange(0, i as int).push(a@[i as int]));
        assert(b@.subrange(0, i + 1) =~= b@.subrange(0, i as int).push(b@[i as int]));
        i = i + 1;
    }
    assert(a@ =~= a@.subrange(0, n as int));
    assert(b@ =~= b@.subrange(0, n as int));
    true
}

/// The command that the word `w` names.
pub fn command(w: &str) -> (c: Command)
    ensures
        c == spec_command(w@),
{
    if same_text(w, ".") {
        Command::Print
    } else if same_text(w, ".s") {
        Command::PrintTop
    } else if same_text(w, "+") {
        Command::Arith(ArithOp::Add)
    } else if same_text(w, "-") {
        Command::Arith(ArithOp::Sub)
    } else if same_text(w, "*") {
        Command::Arith(ArithOp::Mul)
    } else if same_text(w, "/") {
        Command::Arith(ArithOp::Div)
    } else {
        Command::Unknown
    }
}

/// The text of a boolean: `true` or `false`.
pub open spec fn spec_bool_text(b: bool) -> Seq<char> {
    if b {
        "true"@
    } else {
        "false"@
    }
}

/// Whether `show` may format the number `n` as `text`.
pub open spec fn shows_number<N, S: Fn(N) -> String>(show: S, n: N, text: Seq<char>) -> bool {
    exists|r: String| #[trigger] show.ensures((n,), r) && r@ == text
}

/// Whether `text` is a way to print `v` when numbers are formatted by `show`.
pub open spec fn shows<N, S: Fn(N) -> String>(show: S, v: ValueView<N>, text: Seq<char>) -> bool {
    match v {
        ValueView::Number(n) => shows_number(show, n, text),
        ValueView::String(t) => text == t,
        ValueView::Boolean(b) => text == spec_bool_text(b),
    }
}

/// Whether `post` is `pre` with `v` printed as one more line of output.
pub open spec fn prints<N, S: Fn(N) -> String>(
    show: S,
    pre: MachineView<N>,
    v: ValueView<N>,
    post: MachineView<N>,
) -> bool {
    exists|text: Seq<char>| #[trigger]
        shows(show, v, text) && post.output == pre.output + spec_line(text)
}

/// The effect of a printing word (`.` when `pop` holds, `.s` when not) on `pre`.
/// On an empty stack it reports `Underflow` as a line of output and goes on.
pub open spec fn print_step<N, S: Fn(N) -> String>(
    show: S,
    pre: MachineView<N>,
    pop: bool,
    post: MachineView<N>,
) -> bool {
    if pre.values.len() == 0 {
        post.values == pre.values && post.output == pre.output + spec_line(
            spec_error_text(StackError::Underflow),
        )
    } else {
        &&& post.values == (if pop {
            pre.values.drop_last()
        } else {
            pre.values
        })
        &&& prints(show, pre, pre.values.last(), post)
    }
}

/// The effect of an arithmetic word on `pre`: the right operand is popped first,
/// then the left one; values popped before a failure stay off the stack.
pub open spec fn arith_step<N, A: Fn(ArithOp, N, N) -> N>(
    arith: A,
    op: ArithOp,
    pre: MachineView<N>,
    post: MachineView<N>,
    err: Option<StackError>,
) -> bool {
    let vs = pre.values;
    &&& post.output == pre.output
    &&& if vs.len() == 0 {
        err == Some(StackError::Underflow) && post.values == vs
    } else if vs.len() == 1 {
        err == Some(StackError::Underflow) && post.values == Seq::<ValueView<N>>::empty()
    } else {
        let rest = vs.subrange(0, vs.len() - 2);
        match (vs[vs.len() - 2], vs[vs.len() - 1]) {
            (ValueView::Number(a), ValueView::Number(b)) => {
                &&& err is None
                &&& exists|r: N| #[trigger]
                    arith.ensures((op, a, b), r) && post.values == rest.push(ValueView::Number(r))
            },
            _ => err == Some(StackError::TypeMismatch) && post.values == rest,
        }
    }
}

/// One token's effect: from `pre` the machine may go to `post`, failing with `err`
/// (`None` when it goes on).
pub open spec fn step<N, A: Fn(ArithOp, N, N) -> N, S: Fn(N) -> String>(
    arith: A,
    show: S,
    pre: MachineView<N>,
    tok: TokenView<N>,
    post: MachineView<N>,
    err: Option<StackError>,
) -> bool {
    match tok {
        TokenView::Number(n) => err is None && post == MachineView {
            values: pre.values.push(ValueView::Number(n)),
            output: pre.output,
        },
        TokenView::String(t) => err is None && post == MachineView {
            values: pre.values.push(ValueView::String(t)),
            output: pre.output,
        },
        TokenView::Boolean(b) => err is None && post == MachineView {
            values: pre.values.push(ValueView::Boolean(b)),
            output: pre.output,
        },
        TokenView::Word(w) => match spec_command(w) {
            Command::Print => err is None && print_step(show, pre, true, post),
            Command::PrintTop => err is None && print_step(show, pre, false, post),
            Command::Arith(op) => arith_step(arith, op, pre, post, err),
            Command::Unknown => err == Some(StackError::UnknownWord) && post == pre,
        },
    }
}

/// Whether `states` is a run of the machine through `toks` without an error:
/// each token takes the state before it to the state after it.
pub open spec fn is_run<N, A: Fn(ArithOp, N, N) -> N, S: Fn(N) -> String>(
    arith: A,
    show: S,
    states: Seq<MachineView<N>>,
    toks: Seq<TokenView<N>>,
) -> bool {
    &&& states.len() == toks.len() + 1
    &&& forall|k: int| #![trigger toks[k]]
        0 <= k < toks.len() ==> step(arith, show, states[k], toks[k], states[k + 1], None)
}

/// Whether running all of `toks` from `pre` without an error may end in `post`.
pub open spec fn reaches<N, A: Fn(ArithOp, N, N) -> N, S: Fn(N) -> String>(
    arith: A,
    show: S,
    pre: MachineView<N>,
    toks: Seq<TokenView<N>>,
    post: MachineView<N>,
) -> bool {
    exists|states: Seq<MachineView<N>>|
        #[trigger] is_run(arith, show, states, toks) && states[0] == pre && states.last() == post
}

/// Whether running `toks` from `pre` may end in `post` with result `res`: all tokens
/// run without error, or the run stops at the first token that fails.
pub open spec fn runs<N, A: Fn(ArithOp, N, N) -> N, S: Fn(N) -> String>(
    arith: A,
    show: S,
    pre: MachineView<N>,
    toks: Seq<TokenView<N>>,
    post: MachineView<N>,
    res: Result<(), StackError>,
) -> bool {
    match res {
        Ok(_) => reaches(arith, show, pre, toks, post),
        Err(e) => exists|k: int, mid: MachineView<N>|
            0 <= k < toks.len() && #[trigger] reaches(arith, show, pre, toks.take(k), mid)
                && step(arith, show, mid, toks[k], post, Some(e)),
    }
}

/// The error that a result carries, if any.
pub open spec fn error_of(r: Result<(), StackError>) -> Option<StackError> {
    match r {
        Ok(_) => None,
        Err(e) => Some(e),
    }
}

/// The text that prints `v`, numbers being formatted by `show`.
pub fn render<N: Copy, S: Fn(N) -> String>(v: &StackValue<N>, show: &S) -> (r: String)
    requires
        forall|n: N| show.requires((n,)),
    ensures
        shows(*show, v@, r@),
{
    match v {
        StackValue::Number(n) => {
            let text: String = show(*n);
            assert(shows_number(*show, *n, text@)) by {
                assert(show.ensures((*n,), text) && text@ == text@);
            }
            text
        },
        StackValue::String(s) => s.clone(),
        StackValue::Boolean(b) => {
            if *b {
                String::from_str("true")
            } else {
                String::from_str("false")
            }
        },
    }
}

/// The tokens' values, in order.
pub open spec fn token_views<N>(tokens: Seq<Token<N>>) -> Seq<TokenView<N>> {
    tokens.map_values(|t: Token<N>| t@)
}

/// The line that a printing word writes: the value popped or peeked, or the report
/// of the error that kept it from being had. Such an error does not end the run.
fn display_text<N: Copy, S: Fn(N) -> String>(
    value: Result<&StackValue<N>, StackError>,
    show: &S,
) -> (text: String)
    requires
        forall|n: N| show.requires((n,)),
    ensures
        match value {
            Ok(v) => shows(*show, v@, text@),
            Err(e) => text@ == spec_error_text(e),
        },
{
    match value {
        Ok(v) => render(v, show),
        Err(e) => e.report(),
    }
}

/// Runs one token on the machine.
pub fn execute_token<N: Copy, A: Fn(ArithOp, N, N) -> N, S: Fn(N) -> String>(
    tok: &Token<N>,
    stack: &mut Stack<N>,
    arith: &A,
    show: &S,
) -> (r: Result<(), StackError>)
    requires
        forall|op: ArithOp, a: N, b: N| arith.requires((op, a, b)),
        forall|n: N| show.requires((n,)),
    ensures
        step(*arith, *show, old(stack)@, tok@, final(stack)@, error_of(r)),
{
    match tok {
        Token::Number(n) => {
            stack.push(StackValue::Number(*n));
            Ok(())
        },
        Token::String(s) => {
            stack.push(StackValue::String(s.clone()));
            Ok(())
        },
        Token::Boolean(b) => {
            stack.push(StackValue::Boolean(*b));
            Ok(())
        },
        Token::Word(w) => match command(w.as_str()) {
            Command::Print => {
                let ghost pre = stack@;
                let text = match stack.pop() {
                    Ok(v) => display_text(Ok(&v), show),
                    Err(e) => display_text(Err(e), show),
                };
                stack.write_output(text.as_str());
                proof {
                    if pre.values.len() > 0 {
                        assert(shows(*show, pre.values.last(), text@));
                    }
                }
                Ok(())
            },
            Command::PrintTop => {
                let ghost pre = stack@;
                let text = display_text(stack.peek(), show);
                stack.write_output(text.as_str());
                proof {
                    if pre.values.len() > 0 {
                        assert(shows(*show, pre.values.last(), text@));
                    }
                }
                Ok(())
            },
            Command::Arith(op) => {
                let ghost vs = stack@.values;
                let right = match stack.pop() {
                    Ok(v) => v,
                    Err(e) => return Err(e),
                };
                let left = match stack.pop() {
                    Ok(v) => v,
                    Err(e) => {
                        assert(stack@.values =~= Seq::<ValueView<N>>::empty());
                        return Err(e);
                    },
                };
                assert(stack@.values =~= vs.subrange(0, vs.len() - 2));
                assert(left@ == vs[vs.len() - 2]);
                match (left, right) {
                    (StackValue::Number(a), StackValue::Number(b)) => {
                        let r: N = arith(op, a, b);
                        assert(arith.ensures((op, a, b), r));
                        stack.push(StackValue::Number(r));
                        Ok(())
                    },
                    _ => Err(StackError::TypeMismatch),
                }
            },
            Command::Unknown => Err(StackError::UnknownWord),
        },
    }
}

/// Runs `tokens` in order on the machine, stopping at the first one that fails.
///
/// `arith` computes the arithmetic words and `show` formats numbers for output.
/// A printing word on an empty stack writes the report of `Underflow` and goes on;
/// an arithmetic word without two numbers, or an unknown word, ends the run with
/// its error, which is not written to the output.
pub fn execute<N: Copy, A: Fn(ArithOp, N, N) -> N, S: Fn(N) -> String>(
    tokens: Vec<Token<N>>,
    stack: &mut Stack<N>,
    arith: A,
    show: S,
) -> (r: Result<(), StackError>)
    requires
        forall|op: ArithOp, a: N, b: N| arith.requires((op, a, b)),
        forall|n: N| show.requires((n,)),
    ensures
        runs(arith, show, old(stack)@, token_views(tokens@), final(stack)@, r),
{
    let ghost init = stack@;
    let ghost toks = token_views(tokens@);
    let ghost mut states: Seq<MachineView<N>> = seq![init];
    let n = tokens.len();
    let mut i: usize = 0;
    while i < n
        invariant
            n == tokens@.len(),
            toks == token_views(tokens@),
            i <= n,
            is_run(arith, show, states, toks.take(i as int)),
            states[0] == init,
            states.last() == stack@,
            init == old(stack)@,
            forall|op: ArithOp, a: N, b: N| arith.requires((op, a, b)),
            forall|m: N| show.requires((m,)),
        decreases n - i,
    {
        let ghost pre = stack@;
        let r = execute_token(&tokens[i], stack, &arith, &show);
        assert(toks[i as int] == tokens@[i as int]@);
        assert(reaches(arith, show, init, toks.take(i as int), pre));
        match r {
            Ok(()) => {
                proof {
                    let next = toks.take(i + 1);
                    let old_states = states;
                    states = states.push(stack@);
                    assert forall|k: int| #![trigger next[k]]
                        0 <= k < next.len() implies step(
                        arith,
                        show,
                        states[k],
                        next[k],
                        states[k + 1],
                        None,
                    ) by {
                        if k < i {
                            assert(next[k] == toks.take(i as int)[k]);
                        }
                    }
                }
            },
            Err(e) => {
                assert(step(arith, show, pre, toks[i as int], stack@, Some(e)));
                return Err(e);
            },
        }
        i = i + 1;
    }
    assert(toks.take(n as int) =~= toks);
    Ok(())
}

/// A machine with an empty stack and no output.
pub open spec fn empty_machine<N>() -> MachineView<N> {
    MachineView { values: Seq::empty(), output: Seq::empty() }
}

/// The text that a run ending in `post` with result `res` leaves: its output, and,
/// when it stopped on an error, one more line that reports the error.
pub open spec fn final_output<N>(post: MachineView<N>, res: Result<(), StackError>) -> Seq<char> {
    match res {
        Ok(_) => post.output,
        Err(e) => post.output + spec_line(spec_error_text(e)),
    }
}

/// Runs the program `source` on a fresh machine and returns all the text it printed.
///
/// When the run stops on an error, a last line `Error: <name>` reports it.
pub fn run<N: Copy, F: Fn(&str) -> Option<N>, A: Fn(ArithOp, N, N) -> N, S: Fn(N) -> String>(
    source: &str,
    parse_number: F,
    arith: A,
    show: S,
) -> (out: String)
    requires
        forall|x: &str| parse_number.requires((x,)),
        forall|op: ArithOp, a: N, b: N| arith.requires((op, a, b)),
        forall|n: N| show.requires((n,)),
    ensures
        exists|toks: Seq<TokenView<N>>, post: MachineView<N>, res: Result<(), StackError>|
            tokens_of(parse_number, source@, toks) && #[trigger] runs(
                arith,
                show,
                empty_machine(),
                toks,
                post,
                res,
            ) && out@ == final_output(post, res),
{
    let mut stack: Stack<N> = Stack::new();
    let tokens = tokenize(source, parse_number);
    let ghost toks = token_views(tokens@);
    let ghost start = stack@;
    assert(start == empty_machine::<N>());
    let res = execute(tokens, &mut stack, arith, show);
    match res {
        Ok(()) => {},
        Err(e) => {
            let report = e.report();
            stack.write_output(report.as_str());
        },
    }
    let out = String::from_str(stack.get_output());
    out
}

} // verus!
