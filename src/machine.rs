use vstd::prelude::*;

verus! {

/// A value on the machine's stack.
#[derive(Debug, Clone, PartialEq)]
pub enum StackValue<N> {
    Number(N),
    String(String),
    Boolean(bool),
}

/// The mathematical value of a [`StackValue`].
pub enum ValueView<N> {
    Number(N),
    String(Seq<char>),
    Boolean(bool),
}

impl<N> View for StackValue<N> {
    type V = ValueView<N>;

    open spec fn view(&self) -> ValueView<N> {
        match self {
            StackValue::Number(n) => ValueView::Number(*n),
            StackValue::String(s) => ValueView::String(s@),
            StackValue::Boolean(b) => ValueView::Boolean(*b),
        }
    }
}

/// Why an operation of the machine failed.
#[derive(Debug, Clone, Copy, PartialEq, Eq, Structural)]
pub enum StackError {
    /// A value was needed but the stack was empty.
    Underflow,
    /// An operand had a kind the operation does not take.
    TypeMismatch,
    /// A word that the machine does not know.
    UnknownWord,
}

/// The name of an error kind, as its debug form prints it.
pub open spec fn spec_error_name(e: StackError) -> Seq<char> {
    match e {
        StackError::Underflow => "Underflow"@,
        StackError::TypeMismatch => "TypeMismatch"@,
        StackError::UnknownWord => "UnknownWord"@,
    }
}

/// The text that reports an error: `Error: ` and its name.
pub open spec fn spec_error_text(e: StackError) -> Seq<char> {
    "Error: "@ + spec_error_name(e)
}

impl StackError {
    /// The name of the error kind (`Underflow`, `TypeMismatch` or `UnknownWord`).
    pub fn name(&self) -> (r: &'static str)
        ensures
            r@ == spec_error_name(*self),
    {
        match self {
            StackError::Underflow => "Underflow",
            StackError::TypeMismatch => "TypeMismatch",
            StackError::UnknownWord => "UnknownWord",
        }
    }

    /// The report of this error: `Error: ` followed by its name.
    pub fn report(&self) -> (r: String)
        ensures
            r@ == spec_error_text(*self),
    {
        let mut r = String::from_str("Error: ");
        r.append(self.name());
        r
    }
}

/// The state of the machine, seen mathematically: the stack (top last) and
/// the output written so far.
pub struct MachineView<N> {
    pub values: Seq<ValueView<N>>,
    pub output: Seq<char>,
}

/// A value stack together with an append-only output log.
pub struct Stack<N> {
    stack_values: Vec<StackValue<N>>,
    output: String,
}

impl<N> View for Stack<N> {
    type V = MachineView<N>;

    closed spec fn view(&self) -> MachineView<N> {
        MachineView {
            values: self.stack_values@.map_values(|v: StackValue<N>| v@),
            output: self.output@,
        }
    }
}

/// `text` as one line of output.
pub open spec fn spec_line(text: Seq<char>) -> Seq<char> {
    text.push('\n')
}

impl<N> Stack<N> {
    /// An empty stack with no output.
    pub fn new() -> (s: Stack<N>)
        ensures
            s@.values == Seq::<ValueView<N>>::empty(),
            s@.output == Seq::<char>::empty(),
    {
        let s = Stack { stack_values: Vec::new(), output: String::new() };
        assert(s@.values =~= Seq::<ValueView<N>>::empty());
        s
    }

    /// Puts `value` on top of the stack.
    pub fn push(&mut self, value: StackValue<N>)
        ensures
            final(self)@.values == old(self)@.values.push(value@),
            final(self)@.output == old(self)@.output,
    {
        self.stack_values.push(value);
        assert(self@.values =~= old(self)@.values.push(value@));
    }

    /// Takes the top value off the stack, or fails with `Underflow` when it is empty.
    pub fn pop(&mut self) -> (r: Result<StackValue<N>, StackError>)
        ensures
            old(self)@.values.len() == 0 ==> r == Err::<StackValue<N>, StackError>(
                StackError::Underflow,
            ) && final(self)@ == old(self)@,
            old(self)@.values.len() > 0 ==> r is Ok && r->Ok_0@ == old(self)@.values.last()
                && final(self)@.values == old(self)@.values.drop_last() && final(self)@.output
                == old(self)@.output,
    {
        match self.stack_values.pop() {
            Some(v) => {
                assert(self@.values =~= old(self)@.values.drop_last());
                Ok(v)
            },
            None => Err(StackError::Underflow),
        }
    }

    /// The top value of the stack, or `Underflow` when it is empty.
    pub fn peek(&self) -> (r: Result<&StackValue<N>, StackError>)
        ensures
            self@.values.len() == 0 ==> r == Err::<&StackValue<N>, StackError>(
                StackError::Underflow,
            ),
            self@.values.len() > 0 ==> r is Ok && r->Ok_0@ == self@.values.last(),
    {
        let len = self.stack_values.len();
        if len == 0 {
            Err(StackError::Underflow)
        } else {
            Ok(&self.stack_values[len - 1])
        }
    }

    /// Appends `text` and a newline to the output.
    pub fn write_output(&mut self, text: &str)
        ensures
            final(self)@.values == old(self)@.values,
            final(self)@.output == old(self)@.output + spec_line(text@),
    {
        self.output.append(text);
        self.output.append("\n");
        proof {
            reveal_strlit("\n");
        }
        assert(self@.output =~= old(self)@.output + spec_line(text@));
    }

    /// The number of values on the stack.
    pub fn depth(&self) -> (r: usize)
        ensures
            r == self@.values.len(),
    {
        self.stack_values.len()
    }

    /// All output written so far.
    pub fn get_output(&self) -> (r: &str)
        ensures
            r@ == self@.output,
    {
        self.output.as_str()
    }
}

} // verus!
