//! The calculator's core state machine: the entry being typed, the pending
//! operator, the error state and the expression line.
//!
//! Numbers are IEEE-754 doubles. Their arithmetic, parsing and formatting are
//! done by the caller, who hands the outcome in as an [`Evaluation`] of the
//! current state; the model holds a stored value only as its bit pattern
//! (`f64::to_bits`) and decides everything else.
use vstd::prelude::*;
use crate::text::{
    byte_len, chars_of, contains_char, count_char, lemma_count_char_push, lemma_count_char_zero,
    push_char, same_chars, string_from_chars, utf8_width, char_utf8_len, extend_chars,
};

verus! {

/// The four basic arithmetic operations supported by the calculator.
#[derive(Clone, Copy, Debug, PartialEq, Eq, Structural)]
pub enum Operation {
    Add,
    Subtract,
    Multiply,
    Divide,
}

/// All possible user inputs the calculator can receive.
/// Unifies keyboard events and button clicks into a single dispatch path.
#[derive(Clone, Debug, PartialEq, Eq, Structural)]
pub enum Action {
    Digit(char),
    Decimal,
    Backspace,
    Clear,
    ClearEntry,
    ToggleSign,
    Equals,
    SetOperator(Operation),
}

/// The ASCII operator symbol used for keyboard/button matching.
pub open spec fn ascii_symbol(op: Operation) -> Seq<char> {
    match op {
        Operation::Add => seq!['+'],
        Operation::Subtract => seq!['-'],
        Operation::Multiply => seq!['*'],
        Operation::Divide => seq!['/'],
    }
}

/// The full-width symbol shown in the expression bar.
pub open spec fn shown_symbol(op: Operation) -> Seq<char> {
    match op {
        Operation::Add => seq!['\u{FF0B}'],
        Operation::Subtract => seq!['\u{FF0D}'],
        Operation::Multiply => seq!['\u{D7}'],
        Operation::Divide => seq!['\u{F7}'],
    }
}

/// The operation that a one-character symbol names, ASCII or full-width.
pub open spec fn operation_for_char(c: char) -> Option<Operation> {
    if c == '+' || c == '\u{FF0B}' {
        Some(Operation::Add)
    } else if c == '-' || c == '\u{FF0D}' {
        Some(Operation::Subtract)
    } else if c == '*' || c == '\u{D7}' {
        Some(Operation::Multiply)
    } else if c == '/' || c == '\u{F7}' {
        Some(Operation::Divide)
    } else {
        None
    }
}

/// The operation that a symbol string names.
pub open spec fn operation_for_symbol(s: Seq<char>) -> Option<Operation> {
    if s.len() == 1 {
        operation_for_char(s[0])
    } else {
        None
    }
}

pub open spec fn is_ascii_digit(c: char) -> bool {
    '0' <= c <= '9'
}

pub open spec fn operator_action(s: Seq<char>) -> Option<Action> {
    match operation_for_symbol(s) {
        Some(op) => Some(Action::SetOperator(op)),
        None => None,
    }
}

/// The action of a calculator button with label `s`.
pub open spec fn action_for_label(s: Seq<char>) -> Option<Action> {
    if s == seq!['C'] {
        Some(Action::Clear)
    } else if s == seq!['C', 'E'] {
        Some(Action::ClearEntry)
    } else if s == seq!['\u{232B}'] {
        Some(Action::Backspace)
    } else if s == seq!['\u{B1}'] {
        Some(Action::ToggleSign)
    } else if s == seq!['='] {
        Some(Action::Equals)
    } else if s == seq!['.'] {
        Some(Action::Decimal)
    } else if s.len() == 1 && is_ascii_digit(s[0]) {
        Some(Action::Digit(s[0]))
    } else {
        operator_action(s)
    }
}

/// The action of a keyboard key with (lowercase) name `s`.
pub open spec fn action_for_key(s: Seq<char>) -> Option<Action> {
    if s.len() == 1 && is_ascii_digit(s[0]) {
        Some(Action::Digit(s[0]))
    } else if s == seq!['.'] {
        Some(Action::Decimal)
    } else if s == seq!['b', 'a', 'c', 'k', 's', 'p', 'a', 'c', 'e'] {
        Some(Action::Backspace)
    } else if s == seq!['e', 's', 'c', 'a', 'p', 'e'] || s == seq!['c'] {
        Some(Action::Clear)
    } else if s == seq!['='] || s == seq!['e', 'n', 't', 'e', 'r'] || s == seq![
        'r',
        'e',
        't',
        'u',
        'r',
        'n',
    ] {
        Some(Action::Equals)
    } else {
        operator_action(s)
    }
}

impl Operation {
    /// Returns the ASCII operator symbol used for keyboard/button matching.
    pub fn symbol(&self) -> (s: &'static str)
        ensures
            s@ == ascii_symbol(*self),
    {
        match self {
            Operation::Add => {
                proof {
                    reveal_strlit("+");
                }
                "+"
            },
            Operation::Subtract => {
                proof {
                    reveal_strlit("-");
                }
                "-"
            },
            Operation::Multiply => {
                proof {
                    reveal_strlit("*");
                }
                "*"
            },
            Operation::Divide => {
                proof {
                    reveal_strlit("/");
                }
                "/"
            },
        }
    }

    /// The full-width Unicode symbol used when rendering the expression bar.
    pub fn display_symbol(&self) -> (s: &'static str)
        ensures
            s@ == shown_symbol(*self),
    {
        match self {
            Operation::Add => {
                proof {
                    reveal_strlit("\u{FF0B}");
                }
                "\u{FF0B}"
            },
            Operation::Subtract => {
                proof {
                    reveal_strlit("\u{FF0D}");
                }
                "\u{FF0D}"
            },
            Operation::Multiply => {
                proof {
                    reveal_strlit("\u{D7}");
                }
                "\u{D7}"
            },
            Operation::Divide => {
                proof {
                    reveal_strlit("\u{F7}");
                }
                "\u{F7}"
            },
        }
    }

    /// Parses an operator symbol (ASCII or full-width) into an `Operation`.
    pub fn from_symbol(symbol: &str) -> (r: Option<Operation>)
        ensures
            r == operation_for_symbol(symbol@),
    {
        let cs = chars_of(symbol);
        if cs.len() != 1 {
            return None;
        }
        let c = cs[0];
        if c == '+' || c == '\u{FF0B}' {
            Some(Operation::Add)
        } else if c == '-' || c == '\u{FF0D}' {
            Some(Operation::Subtract)
        } else if c == '*' || c == '\u{D7}' {
            Some(Operation::Multiply)
        } else if c == '/' || c == '\u{F7}' {
            Some(Operation::Divide)
        } else {
            None
        }
    }
}

fn is_word(cs: &Vec<char>, word: Vec<char>) -> (r: bool)
    ensures
        r == (cs@ == word@),
{
    same_chars(cs.as_slice(), word.as_slice())
}

fn operator_action_of(s: &str) -> (r: Option<Action>)
    ensures
        r == operator_action(s@),
{
    match Operation::from_symbol(s) {
        Some(op) => Some(Action::SetOperator(op)),
        None => None,
    }
}

impl Action {
    /// Parses a button label string into the corresponding `Action`.
    pub fn from_label(label: &str) -> (r: Option<Action>)
        ensures
            r == action_for_label(label@),
    {
        let cs = chars_of(label);
        if {
            let w = vec!['C'];
            proof {
                assert(w@ =~= seq!['C']);
            }
            is_word(&cs, w)
        } {
            Some(Action::Clear)
        } else if {
            let w = vec!['C', 'E'];
            proof {
                assert(w@ =~= seq!['C', 'E']);
            }
            is_word(&cs, w)
        } {
            Some(Action::ClearEntry)
        } else if {
            let w = vec!['\u{232B}'];
            proof {
                assert(w@ =~= seq!['\u{232B}']);
            }
            is_word(&cs, w)
        } {
            Some(Action::Backspace)
        } else if {
            let w = vec!['\u{B1}'];
            proof {
                assert(w@ =~= seq!['\u{B1}']);
            }
            is_word(&cs, w)
        } {
            Some(Action::ToggleSign)
        } else if {
            let w = vec!['='];
            proof {
                assert(w@ =~= seq!['=']);
            }
            is_word(&cs, w)
        } {
            Some(Action::Equals)
        } else if {
            let w = vec!['.'];
            proof {
                assert(w@ =~= seq!['.']);
            }
            is_word(&cs, w)
        } {
            Some(Action::Decimal)
        } else if cs.len() == 1 && '0' <= cs[0] && cs[0] <= '9' {
            Some(Action::Digit(cs[0]))
        } else {
            operator_action_of(label)
        }
    }

    /// Parses a keyboard key string (lowercase) into the corresponding `Action`.
    pub fn from_key(key: &str) -> (r: Option<Action>)
        ensures
            r == action_for_key(key@),
    {
        let cs = chars_of(key);
        if cs.len() == 1 && '0' <= cs[0] && cs[0] <= '9' {
            Some(Action::Digit(cs[0]))
        } else if {
            let w = vec!['.'];
            proof {
                assert(w@ =~= seq!['.']);
            }
            is_word(&cs, w)
        } {
            Some(Action::Decimal)
        } else if {
            let w = vec!['b', 'a', 'c', 'k', 's', 'p', 'a', 'c', 'e'];
            proof {
                assert(w@ =~= seq!['b', 'a', 'c', 'k', 's', 'p', 'a', 'c', 'e']);
            }
            is_word(&cs, w)
        } {
            Some(Action::Backspace)
        } else if {
            let w = vec!['e', 's', 'c', 'a', 'p', 'e'];
            proof {
                assert(w@ =~= seq!['e', 's', 'c', 'a', 'p', 'e']);
            }
            is_word(&cs, w)
        } || {
            let w = vec!['c'];
            proof {
                assert(w@ =~= seq!['c']);
            }
            is_word(&cs, w)
        } {
            Some(Action::Clear)
        } else if {
            let w = vec!['='];
            proof {
                assert(w@ =~= seq!['=']);
            }
            is_word(&cs, w)
        } || {
            let w = vec!['e', 'n', 't', 'e', 'r'];
            proof {
                assert(w@ =~= seq!['e', 'n', 't', 'e', 'r']);
            }
            is_word(&cs, w)
        } || {
            let w = vec!['r', 'e', 't', 'u', 'r', 'n'];
            proof {
                assert(w@ =~= seq!['r', 'e', 't', 'u', 'r', 'n']);
            }
            is_word(&cs, w)
        } {
            Some(Action::Equals)
        } else {
            operator_action_of(key)
        }
    }
}

/// A number produced by the caller's double-precision arithmetic: its bit
/// pattern (`f64::to_bits`) and its display text (`format_number`).
pub struct Number {
    pub bits: u64,
    pub text: String,
}

/// What the caller's floating-point arithmetic makes of the current state:
/// - `input`: the current input parsed as a number, when it parses;
/// - `negated_input`: the display text of the negated input, when it parses
///   and is not zero;
/// - `stored_text`: the display text of the stored value;
/// - `outcome`: the pending operator applied to the stored value and the
///   parsed input, when both exist (an `Err` carries the error message).
pub struct Evaluation {
    pub input: Option<Number>,
    pub negated_input: Option<String>,
    pub stored_text: String,
    pub outcome: Option<Result<Number, String>>,
}

pub struct NumberView {
    pub bits: u64,
    pub text: Seq<char>,
}

pub struct EvaluationView {
    pub input: Option<NumberView>,
    pub negated_input: Option<Seq<char>>,
    pub stored_text: Seq<char>,
    pub outcome: Option<Result<NumberView, Seq<char>>>,
}

impl View for Number {
    type V = NumberView;

    open spec fn view(&self) -> NumberView {
        NumberView { bits: self.bits, text: self.text@ }
    }
}

pub open spec fn outcome_view(o: Option<Result<Number, String>>) -> Option<
    Result<NumberView, Seq<char>>,
> {
    match o {
        Some(Ok(n)) => Some(Ok(n@)),
        Some(Err(m)) => Some(Err(m@)),
        None => None,
    }
}

impl View for Evaluation {
    type V = EvaluationView;

    open spec fn view(&self) -> EvaluationView {
        EvaluationView {
            input: match self.input {
                Some(n) => Some(n@),
                None => None,
            },
            negated_input: match self.negated_input {
                Some(t) => Some(t@),
                None => None,
            },
            stored_text: self.stored_text@,
            outcome: outcome_view(self.outcome),
        }
    }
}

/// The abstract state of the calculator.
pub struct CalculatorState {
    /// Bit pattern of the stored (left-hand) value.
    pub stored_bits: u64,
    /// The text in the main display.
    pub input: Seq<char>,
    pub operator: Option<Operation>,
    /// When `true`, the next digit input replaces the current display.
    pub start_new: bool,
    pub error: bool,
    /// The text in the expression bar.
    pub expression: Seq<char>,
}

/// The state of a fresh calculator.
pub open spec fn initial_state() -> CalculatorState {
    CalculatorState {
        stored_bits: 0,
        input: seq!['0'],
        operator: None,
        start_new: true,
        error: false,
        expression: seq![' '],
    }
}

impl CalculatorState {
    pub open spec fn after_digit(self, d: char) -> CalculatorState {
        if self.start_new || self.error {
            CalculatorState { input: seq![d], start_new: false, error: false, ..self }
        } else if self.input == seq!['0'] {
            CalculatorState { input: seq![d], ..self }
        } else {
            CalculatorState { input: self.input.push(d), ..self }
        }
    }

    pub open spec fn after_decimal(self) -> CalculatorState {
        if self.start_new || self.error {
            CalculatorState { input: seq!['0', '.'], start_new: false, error: false, ..self }
        } else if !self.input.contains('.') {
            CalculatorState { input: self.input.push('.'), ..self }
        } else {
            self
        }
    }

    /// Backspace works on whole characters; an input of more than one byte
    /// loses its last character, and a lone `-` or a single byte becomes `0`.
    pub open spec fn after_backspace(self) -> CalculatorState {
        if self.start_new || self.error {
            self
        } else if byte_len(self.input) > 1 {
            if self.input.drop_last() == seq!['-'] {
                CalculatorState { input: seq!['0'], start_new: true, ..self }
            } else {
                CalculatorState { input: self.input.drop_last(), ..self }
            }
        } else {
            CalculatorState { input: seq!['0'], start_new: true, ..self }
        }
    }

    pub open spec fn after_clear_entry(self) -> CalculatorState {
        CalculatorState { input: seq!['0'], start_new: true, error: false, ..self }
    }

    pub open spec fn after_toggle_sign(self, e: EvaluationView) -> CalculatorState {
        if self.error {
            self
        } else {
            match e.negated_input {
                Some(t) => CalculatorState { input: t, ..self },
                None => self,
            }
        }
    }

    pub open spec fn with_error(self, message: Seq<char>) -> CalculatorState {
        CalculatorState {
            input: message,
            expression: seq![' '],
            error: true,
            start_new: true,
            ..self
        }
    }

    /// Stores `value` as the left-hand side of `op`.
    pub open spec fn with_pending(self, value: NumberView, op: Operation) -> CalculatorState {
        CalculatorState {
            stored_bits: value.bits,
            operator: Some(op),
            expression: value.text + seq![' '] + shown_symbol(op),
            start_new: true,
            ..self
        }
    }

    pub open spec fn after_set_operator(self, op: Operation, e: EvaluationView) -> CalculatorState {
        if self.error {
            self
        } else {
            match e.input {
                None => self,
                Some(current) => if self.operator is Some && !self.start_new {
                    match e.outcome {
                        Some(Ok(r)) => CalculatorState { input: r.text, ..self }.with_pending(r, op),
                        Some(Err(m)) => self.with_error(m),
                        None => self,
                    }
                } else {
                    self.with_pending(current, op)
                },
            }
        }
    }

    pub open spec fn after_equals(self, e: EvaluationView) -> CalculatorState {
        if self.error || self.operator is None {
            self
        } else {
            match e.input {
                None => self,
                Some(rhs) => match e.outcome {
                    Some(Ok(r)) => CalculatorState {
                        input: r.text,
                        stored_bits: r.bits,
                        operator: None,
                        start_new: true,
                        expression: e.stored_text + seq![' '] + shown_symbol(
                            self.operator->0,
                        ) + seq![' '] + rhs.text + seq![' ', '='],
                        ..self
                    },
                    Some(Err(m)) => self.with_error(m),
                    None => self,
                },
            }
        }
    }

    /// The state after `action`, given the evaluation `e` of this state.
    pub open spec fn step(self, action: Action, e: EvaluationView) -> CalculatorState {
        match action {
            Action::Digit(d) => self.after_digit(d),
            Action::Decimal => self.after_decimal(),
            Action::Backspace => self.after_backspace(),
            Action::Clear => initial_state(),
            Action::ClearEntry => self.after_clear_entry(),
            Action::ToggleSign => self.after_toggle_sign(e),
            Action::Equals => self.after_equals(e),
            Action::SetOperator(op) => self.after_set_operator(op, e),
        }
    }

    /// `e` is shaped as an evaluation of this state: an outcome exactly when
    /// the input parses and an operator is pending, and a negated input only
    /// when the input parses.
    pub open spec fn fits(self, e: EvaluationView) -> bool {
        &&& (e.outcome is Some <==> (e.input is Some && self.operator is Some))
        &&& (e.negated_input is Some ==> e.input is Some)
    }
}

/// The calculator's core state machine.
///
/// All state is encapsulated; mutation occurs exclusively through public methods.
pub struct CalculatorModel {
    stored_bits: u64,
    current_input: String,
    current_operator: Option<Operation>,
    start_new_number: bool,
    is_error: bool,
    expression_text: String,
}

impl View for CalculatorModel {
    type V = CalculatorState;

    closed spec fn view(&self) -> CalculatorState {
        CalculatorState {
            stored_bits: self.stored_bits,
            input: self.current_input@,
            operator: self.current_operator,
            start_new: self.start_new_number,
            error: self.is_error,
            expression: self.expression_text@,
        }
    }
}

fn text_of(v: &[char]) -> (s: String)
    ensures
        s@ == v@,
{
    string_from_chars(v)
}

/// The one-character string `c`.
fn char_text(c: char) -> (s: String)
    ensures
        s@ == seq![c],
{
    let v: &[char] = &[c];
    assert(v@ =~= seq![c]);
    string_from_chars(v)
}

/// The string `0.`.
fn zero_point_text() -> (s: String)
    ensures
        s@ == seq!['0', '.'],
{
    let v: &[char] = &['0', '.'];
    assert(v@ =~= seq!['0', '.']);
    string_from_chars(v)
}

/// Whether the UTF-8 encoding of `v` is longer than one byte.
fn more_than_one_byte(v: &[char]) -> (b: bool)
    ensures
        b == (byte_len(v@) > 1),
{
    proof {
        if v@.len() >= 2 {
            crate::text::lemma_byte_len_ge_len(v@);
        }
        if v@.len() == 1 {
            assert(v@.drop_last() =~= Seq::<char>::empty());
            assert(byte_len(v@) == byte_len(v@.drop_last()) + utf8_width(v@.last()));
        }
        if v@.len() == 0 {
            assert(byte_len(v@) == 0);
        }
    }
    v.len() > 1 || (v.len() == 1 && char_utf8_len(v[0]) > 1)
}

impl Default for CalculatorModel {
    fn default() -> (m: CalculatorModel)
        ensures
            m@ == initial_state(),
    {
        CalculatorModel::new()
    }
}

impl CalculatorModel {
    pub fn new() -> (m: CalculatorModel)
        ensures
            m@ == initial_state(),
    {
        CalculatorModel {
            stored_bits: 0,
            current_input: char_text('0'),
            current_operator: None,
            start_new_number: true,
            is_error: false,
            expression_text: char_text(' '),
        }
    }

    /// Dispatches a user `Action` to the appropriate model mutation method.
    pub fn dispatch(&mut self, action: Action, eval: &Evaluation)
        requires
            old(self)@.fits(eval@),
        ensures
            final(self)@ == old(self)@.step(action, eval@),
    {
        match action {
            Action::Digit(d) => self.enter_digit(d),
            Action::Decimal => self.enter_decimal(),
            Action::Backspace => self.backspace(),
            Action::Clear => self.reset(),
            Action::ClearEntry => self.clear_entry(),
            Action::ToggleSign => self.toggle_sign(eval),
            Action::Equals => self.calculate_equals(eval),
            Action::SetOperator(op) => self.set_operator(op, eval),
        }
    }

    /// Resets the calculator to its initial state.
    pub fn reset(&mut self)
        ensures
            final(self)@ == initial_state(),
    {
        *self = Self::new();
    }

    /// Clears the current input only, leaving the pending operator intact.
    pub fn clear_entry(&mut self)
        ensures
            final(self)@ == old(self)@.after_clear_entry(),
    {
        self.current_input = char_text('0');
        self.start_new_number = true;
        self.is_error = false;
    }

    pub fn enter_digit(&mut self, digit: char)
        ensures
            final(self)@ == old(self)@.after_digit(digit),
    {
        if self.start_new_number || self.is_error {
            self.current_input = char_text(digit);
            self.start_new_number = false;
            self.is_error = false;
        } else {
            let cs = chars_of(self.current_input.as_str());
            if cs.len() == 1 && cs[0] == '0' {
                assert(cs@ =~= seq!['0']);
                self.current_input = char_text(digit);
            } else {
                assert(cs@ != seq!['0']) by {
                    if cs@ == seq!['0'] {
                        assert(cs@[0] == '0');
                    }
                }
                push_char(&mut self.current_input, digit);
            }
        }
    }

    pub fn enter_decimal(&mut self)
        ensures
            final(self)@ == old(self)@.after_decimal(),
    {
        if self.start_new_number || self.is_error {
            self.current_input = zero_point_text();
            self.start_new_number = false;
            self.is_error = false;
        } else {
            let cs = chars_of(self.current_input.as_str());
            if !contains_char(cs.as_slice(), '.') {
                push_char(&mut self.current_input, '.');
            }
        }
    }

    pub fn backspace(&mut self)
        ensures
            final(self)@ == old(self)@.after_backspace(),
    {
        if self.start_new_number || self.is_error {
            return;
        }
        let mut cs = chars_of(self.current_input.as_str());
        if more_than_one_byte(cs.as_slice()) {
            cs.pop();
            // "-" alone is not a valid number; reset to zero
            if cs.len() == 1 && cs[0] == '-' {
                assert(cs@ =~= seq!['-']);
                self.current_input = char_text('0');
                self.start_new_number = true;
            } else {
                assert(cs@ != seq!['-']) by {
                    if cs@ == seq!['-'] {
                        assert(cs@[0] == '-');
                    }
                }
                self.current_input = text_of(cs.as_slice());
            }
        } else {
            self.current_input = char_text('0');
            self.start_new_number = true;
        }
    }

    /// Negates the current input, using the evaluation's negated text.
    pub fn toggle_sign(&mut self, eval: &Evaluation)
        ensures
            final(self)@ == old(self)@.after_toggle_sign(eval@),
    {
        if self.is_error {
            return;
        }
        match &eval.negated_input {
            Some(text) => {
                self.current_input = text.clone();
            },
            None => {},
        }
    }

    /// Stores `value` as the pending left-hand side of `op`.
    fn store_pending(&mut self, value: &Number, op: Operation)
        ensures
            final(self)@ == old(self)@.with_pending(value@, op),
    {
        self.stored_bits = value.bits;
        self.current_operator = Some(op);
        let mut expr = chars_of(value.text.as_str());
        expr.push(' ');
        let sym = chars_of(op.display_symbol());
        extend_chars(&mut expr, sym.as_slice());
        assert(expr@ =~= value.text@ + seq![' '] + shown_symbol(op));
        self.expression_text = text_of(expr.as_slice());
        self.start_new_number = true;
    }

    pub fn set_operator(&mut self, op: Operation, eval: &Evaluation)
        requires
            old(self)@.fits(eval@),
        ensures
            final(self)@ == old(self)@.after_set_operator(op, eval@),
    {
        if self.is_error {
            return;
        }
        match &eval.input {
            None => {},
            Some(current) => {
                // Chain: evaluate the pending operation before setting the new one
                if self.current_operator.is_some() && !self.start_new_number {
                    match &eval.outcome {
                        Some(Ok(result)) => {
                            self.current_input = result.text.clone();
                            self.store_pending(result, op);
                        },
                        Some(Err(message)) => {
                            self.handle_error(message);
                        },
                        None => {},
                    }
                } else {
                    self.store_pending(current, op);
                }
            },
        }
    }

    pub fn calculate_equals(&mut self, eval: &Evaluation)
        requires
            old(self)@.fits(eval@),
        ensures
            final(self)@ == old(self)@.after_equals(eval@),
    {
        if self.is_error || self.current_operator.is_none() {
            return;
        }
        let op = self.current_operator.unwrap();
        match &eval.input {
            None => {},
            Some(rhs) => {
                let mut expr = chars_of(eval.stored_text.as_str());
                expr.push(' ');
                let sym = chars_of(op.display_symbol());
                extend_chars(&mut expr, sym.as_slice());
                expr.push(' ');
                let rhs_text = chars_of(rhs.text.as_str());
                extend_chars(&mut expr, rhs_text.as_slice());
                expr.push(' ');
                expr.push('=');
                self.expression_text = text_of(expr.as_slice());
                assert(self.expression_text@ =~= eval.stored_text@ + seq![' '] + shown_symbol(op)
                    + seq![' '] + rhs.text@ + seq![' ', '=']);
                match &eval.outcome {
                    Some(Ok(result)) => {
                        self.current_input = result.text.clone();
                        self.stored_bits = result.bits;
                        self.current_operator = None;
                        self.start_new_number = true;
                    },
                    Some(Err(message)) => self.handle_error(message),
                    None => {},
                }
            },
        }
    }

    fn handle_error(&mut self, message: &String)
        ensures
            final(self)@ == old(self)@.with_error(message@),
    {
        self.current_input = message.clone();
        self.expression_text = char_text(' ');
        self.is_error = true;
        self.start_new_number = true;
    }

    // ── Getters ──────────────────────────────────────────────────────────────
    pub fn current_input(&self) -> (s: &str)
        ensures
            s@ == self@.input,
    {
        self.current_input.as_str()
    }

    pub fn expression_text(&self) -> (s: &str)
        ensures
            s@ == self@.expression,
    {
        self.expression_text.as_str()
    }

    pub fn is_error(&self) -> (b: bool)
        ensures
            b == self@.error,
    {
        self.is_error
    }

    pub fn current_operator(&self) -> (o: Option<Operation>)
        ensures
            o == self@.operator,
    {
        self.current_operator
    }

    /// Bit pattern of the stored value, for the caller's arithmetic.
    pub fn stored_bits(&self) -> (b: u64)
        ensures
            b == self@.stored_bits,
    {
        self.stored_bits
    }
}

/// The entry actions: those that edit the typed number without arithmetic.
pub open spec fn is_entry_action(a: Action) -> bool {
    match a {
        Action::Digit(d) => is_ascii_digit(d),
        Action::Decimal | Action::Backspace | Action::Clear | Action::ClearEntry => true,
        _ => false,
    }
}

/// `C` returns the calculator to its initial state, whatever state it was in.
pub proof fn lemma_clear_restores_initial(s: CalculatorState, e: EvaluationView)
    ensures
        s.step(Action::Clear, e) == initial_state(),
{
}

/// `CE` clears only the entry: the stored value, the pending operator and the
/// expression line are kept.
pub proof fn lemma_clear_entry_keeps_pending(s: CalculatorState, e: EvaluationView)
    ensures
        s.step(Action::ClearEntry, e).stored_bits == s.stored_bits,
        s.step(Action::ClearEntry, e).operator == s.operator,
        s.step(Action::ClearEntry, e).expression == s.expression,
        s.step(Action::ClearEntry, e).input == seq!['0'],
        !s.step(Action::ClearEntry, e).error,
{
}

/// An entry never holds more than one decimal point: editing it keeps it so.
pub proof fn lemma_entry_single_decimal_point(s: CalculatorState, a: Action, e: EvaluationView)
    requires
        is_entry_action(a),
        count_char(s.input, '.') <= 1,
    ensures
        count_char(s.step(a, e).input, '.') <= 1,
{
    reveal_with_fuel(count_char, 3);
    match a {
        Action::Digit(d) => {
            if !(s.start_new || s.error) && s.input != seq!['0'] {
                lemma_count_char_push(s.input, d, '.');
            }
        },
        Action::Decimal => {
            if !(s.start_new || s.error) && !s.input.contains('.') {
                lemma_count_char_zero(s.input, '.');
                lemma_count_char_push(s.input, '.', '.');
            }
        },
        Action::Backspace => {
            if !(s.start_new || s.error) && byte_len(s.input) > 1 && s.input.len() > 0 {
                assert(s.input =~= s.input.drop_last().push(s.input.last()));
                lemma_count_char_push(s.input.drop_last(), s.input.last(), '.');
            }
        },
        _ => {},
    }
}

/// The texts an evaluation can put on the display hold at most one decimal
/// point each.
pub open spec fn single_point_texts(e: EvaluationView) -> bool {
    &&& (e.negated_input matches Some(t) ==> count_char(t, '.') <= 1)
    &&& (e.outcome matches Some(Ok(r)) ==> count_char(r.text, '.') <= 1)
    &&& (e.outcome matches Some(Err(m)) ==> count_char(m, '.') <= 1)
}

/// Whatever the key, the display never shows more than one decimal point, as
/// long as the numbers and messages the arithmetic hands in have at most one.
pub proof fn lemma_display_single_decimal_point(s: CalculatorState, a: Action, e: EvaluationView)
    requires
        count_char(s.input, '.') <= 1,
        single_point_texts(e),
        a matches Action::Digit(d) ==> is_ascii_digit(d),
    ensures
        count_char(s.step(a, e).input, '.') <= 1,
{
    if is_entry_action(a) {
        lemma_entry_single_decimal_point(s, a, e);
    }
}

/// In the error state, arithmetic, sign and backspace are ignored: only a new
/// entry or a clear leaves it.
pub proof fn lemma_error_is_sticky(s: CalculatorState, a: Action, e: EvaluationView)
    requires
        s.error,
        a is Backspace || a is ToggleSign || a is Equals || a is SetOperator,
    ensures
        s.step(a, e) == s,
{
}

/// Backspace undoes a digit typed in the middle of an entry.
pub proof fn lemma_backspace_undoes_digit(s: CalculatorState, d: char, e: EvaluationView)
    requires
        !s.start_new,
        !s.error,
        s.input.len() > 0,
        s.input != seq!['0'],
        s.input != seq!['-'],
    ensures
        s.step(Action::Digit(d), e).step(Action::Backspace, e) == s,
{
    let t = s.after_digit(d);
    assert(t.input == s.input.push(d));
    crate::text::lemma_byte_len_ge_len(t.input);
    assert(t.input.drop_last() =~= s.input);
}

/// Parsing an operation's symbol, the ASCII one or the full-width one shown
/// in the expression bar, gives the operation back.
pub proof fn lemma_symbol_round_trip(op: Operation)
    ensures
        operation_for_symbol(ascii_symbol(op)) == Some(op),
        operation_for_symbol(shown_symbol(op)) == Some(op),
{
}

/// A digit, an operator symbol, `=` or `.` means the same action typed on the
/// keyboard as clicked on the keypad.
pub proof fn lemma_keys_match_labels(s: Seq<char>)
    requires
        (s.len() == 1 && is_ascii_digit(s[0])) || operation_for_symbol(s) is Some || s == seq!['=']
            || s == seq!['.'],
    ensures
        action_for_key(s) == action_for_label(s),
        action_for_key(s) is Some,
{
}

/// The message the arithmetic reports for a division by zero.
pub open spec fn division_error_text() -> Seq<char> {
    seq!['E', 'r', 'r', 'o', 'r', ':', ' ', 'D', 'i', 'v', 'i', 's', 'i', 'o', 'n', ' ', 'b', 'y', ' ', 'z', 'e', 'r', 'o']
}

/// A text the display may show as an entry: not empty, not a lone `-`, at
/// most one decimal point, and ASCII without a `:` (so never the division
/// error message). Typed numbers and `format_number`'s output are such texts.
pub open spec fn entry_text(t: Seq<char>) -> bool {
    &&& t.len() > 0
    &&& t != seq!['-']
    &&& count_char(t, '.') <= 1
    &&& forall|i: int| 0 <= i < t.len() ==> (#[trigger] t[i] as u32) < 0x80 && t[i] != ':'
}

/// The arithmetic hands in entry texts for numbers, and the division error
/// message for an error.
pub open spec fn plain_evaluation(e: EvaluationView) -> bool {
    &&& (e.negated_input matches Some(t) ==> entry_text(t))
    &&& (e.outcome matches Some(Ok(r)) ==> entry_text(r.text))
    &&& (e.outcome matches Some(Err(m)) ==> m == division_error_text())
}

impl CalculatorState {
    /// The shape every reachable state has: in the error state the display
    /// shows the division error message and the expression line is blank;
    /// otherwise it shows an entry text.
    pub open spec fn well_shaped(self) -> bool {
        &&& (self.error ==> self.input == division_error_text() && self.expression == seq![' '])
        &&& (!self.error ==> entry_text(self.input))
    }
}

/// A key whose digit, if any, is an ASCII digit.
pub open spec fn keypad_action(a: Action) -> bool {
    a matches Action::Digit(d) ==> is_ascii_digit(d)
}

proof fn lemma_ascii_byte_len(s: Seq<char>)
    requires
        forall|i: int| 0 <= i < s.len() ==> (#[trigger] s[i] as u32) < 0x80,
    ensures
        byte_len(s) == s.len(),
    decreases s.len(),
{
    if s.len() > 0 {
        assert forall|i: int| 0 <= i < s.drop_last().len() implies (#[trigger] s.drop_last()[i] as u32)
            < 0x80 by {
            assert(s.drop_last()[i] == s[i]);
        }
        lemma_ascii_byte_len(s.drop_last());
    }
}

proof fn lemma_digit_is_entry(d: char)
    requires
        is_ascii_digit(d),
    ensures
        entry_text(seq![d]),
{
    let z = seq![d];
    assert(!z.contains('.')) by {
        if z.contains('.') {
            let i = choose|i: int| 0 <= i < z.len() && z[i] == '.';
            assert(i == 0);
        }
    }
    lemma_count_char_zero(z, '.');
    assert(z[0] != seq!['-'][0]);
    assert forall|i: int| 0 <= i < z.len() implies (#[trigger] z[i] as u32) < 0x80 && z[i] != ':' by {
        assert(i == 0);
    }
}

/// A fresh calculator is well shaped.
pub proof fn lemma_initial_well_shaped()
    ensures
        initial_state().well_shaped(),
{
    let z = seq!['0'];
    assert(!z.contains('.')) by {
        if z.contains('.') {
            let i = choose|i: int| 0 <= i < z.len() && z[i] == '.';
            assert(i == 0);
        }
    }
    lemma_count_char_zero(z, '.');
    assert(z[0] != seq!['-'][0]);
    assert(forall|i: int| 0 <= i < z.len() ==> (#[trigger] z[i] as u32) < 0x80 && z[i] != ':') by {
        assert forall|i: int| 0 <= i < z.len() implies (#[trigger] z[i] as u32) < 0x80 && z[i] != ':' by {
            assert(i == 0);
        }
    }
}

/// Every keypad step keeps the calculator well shaped, as long as the
/// arithmetic hands in entry texts and the division error message.
pub proof fn lemma_step_keeps_shape(s: CalculatorState, a: Action, e: EvaluationView)
    requires
        s.well_shaped(),
        plain_evaluation(e),
        keypad_action(a),
    ensures
        s.step(a, e).well_shaped(),
{
    reveal_with_fuel(count_char, 3);
    let t = s.step(a, e);
    match a {
        Action::Digit(d) => {
            lemma_digit_is_entry(d);
            if !(s.start_new || s.error) && s.input != seq!['0'] {
                assert(t.input.len() >= 2);
                assert(t.input != seq!['-']);
                lemma_count_char_push(s.input, d, '.');
                assert forall|i: int| 0 <= i < t.input.len() implies (#[trigger] t.input[i] as u32)
                    < 0x80 && t.input[i] != ':' by {
                    if i < s.input.len() {
                        assert(t.input[i] == s.input[i]);
                    }
                }
            }
        },
        Action::Decimal => {
            if !(s.start_new || s.error) && !s.input.contains('.') {
                lemma_count_char_zero(s.input, '.');
                lemma_count_char_push(s.input, '.', '.');
                assert forall|i: int| 0 <= i < t.input.len() implies (#[trigger] t.input[i] as u32)
                    < 0x80 && t.input[i] != ':' by {
                    if i < s.input.len() {
                        assert(t.input[i] == s.input[i]);
                    }
                }
            }
        },
        Action::Backspace => {
            if !(s.start_new || s.error) && byte_len(s.input) > 1 {
                lemma_ascii_byte_len(s.input);
                let p = s.input.drop_last();
                assert(s.input =~= p.push(s.input.last()));
                lemma_count_char_push(p, s.input.last(), '.');
                assert forall|i: int| 0 <= i < p.len() implies (#[trigger] p[i] as u32) < 0x80
                    && p[i] != ':' by {
                    assert(p[i] == s.input[i]);
                }
            }
        },
        Action::Clear => {
            lemma_initial_well_shaped();
        },
        Action::ClearEntry => {
            lemma_digit_is_entry('0');
        },
        _ => {},
    }
}

proof fn lemma_division_text_has_no_point()
    ensures
        count_char(division_error_text(), '.') == 0,
{
    let t = division_error_text();
    assert forall|i: int| 0 <= i < t.len() implies t[i] != '.' by {
        assert(t[i] == seq!['E', 'r', 'r', 'o', 'r', ':', ' ', 'D', 'i', 'v', 'i', 's', 'i', 'o', 'n', ' ', 'b', 'y', ' ', 'z', 'e', 'r', 'o'][i]);
    }
    lemma_count_char_zero(t, '.');
}

/// In a well-shaped state the display is never empty nor a lone `-`, holds
/// at most one decimal point, shows the division error message exactly in
/// the error state, and the expression line is blank in the error state.
pub proof fn lemma_well_shaped_display(s: CalculatorState)
    requires
        s.well_shaped(),
    ensures
        s.input.len() > 0,
        s.input != seq!['-'],
        count_char(s.input, '.') <= 1,
        s.error <==> s.input == division_error_text(),
        s.error ==> s.expression == seq![' '],
{
    lemma_division_text_has_no_point();
    if !s.error && s.input == division_error_text() {
        assert(s.input[5] == ':');
    }
}

/// A decimal point key leaves exactly one point in the entry and clears the
/// error state; pressing it again changes nothing. From a fresh calculator
/// it gives `0.`.
pub proof fn lemma_decimal_point_once(s: CalculatorState, e: EvaluationView)
    requires
        s.well_shaped(),
    ensures
        count_char(s.step(Action::Decimal, e).input, '.') == 1,
        !s.step(Action::Decimal, e).error,
        s.step(Action::Decimal, e).step(Action::Decimal, e) == s.step(Action::Decimal, e),
        initial_state().step(Action::Decimal, e).input == seq!['0', '.'],
{
    reveal_with_fuel(count_char, 3);
    let t = s.step(Action::Decimal, e);
    if s.start_new || s.error {
        assert(t.input == seq!['0', '.']);
        assert(t.input.contains('.')) by {
            assert(t.input[1] == '.');
        }
    } else if !s.input.contains('.') {
        lemma_count_char_zero(s.input, '.');
        lemma_count_char_push(s.input, '.', '.');
        assert(t.input.contains('.')) by {
            assert(t.input[t.input.len() - 1] == '.');
        }
    } else {
        lemma_count_char_zero(s.input, '.');
    }
}

/// Outside the error state the sign key shows the negated number whenever the
/// display parses to a non-zero number, whether the display holds a typed
/// entry or a result; nothing else changes. In the error state, or when the
/// display has no non-zero number, the key does nothing.
pub proof fn lemma_sign_key_negates_display(s: CalculatorState, e: EvaluationView)
    ensures
        !s.error && e.negated_input is Some ==> s.step(Action::ToggleSign, e) == (CalculatorState {
            input: e.negated_input->0,
            ..s
        }),
        s.error || e.negated_input is None ==> s.step(Action::ToggleSign, e) == s,
{
}

/// Outside the error state, when the display parses, an operator key makes
/// that operator the pending one and starts a new entry; the stored value and
/// the expression line `value op` come from the display, or from the chained
/// result when an entry was being typed against an earlier operator. An error
/// of the chained operation shows its message instead.
pub proof fn lemma_operator_key_sets_pending(s: CalculatorState, op: Operation, e: EvaluationView)
    requires
        !s.error,
        e.input is Some,
        s.fits(e),
    ensures
        ({
            let t = s.step(Action::SetOperator(op), e);
            let chained = s.operator is Some && !s.start_new;
            &&& !chained ==> {
                &&& t.operator == Some(op)
                &&& t.start_new
                &&& !t.error
                &&& t.input == s.input
                &&& t.stored_bits == e.input->0.bits
                &&& t.expression == e.input->0.text + seq![' '] + shown_symbol(op)
            }
            &&& chained ==> (e.outcome matches Some(Ok(r)) ==> {
                &&& t.operator == Some(op)
                &&& t.start_new
                &&& !t.error
                &&& t.input == r.text
                &&& t.stored_bits == r.bits
                &&& t.expression == r.text + seq![' '] + shown_symbol(op)
            })
            &&& chained ==> (e.outcome matches Some(Err(m)) ==> {
                &&& t.error
                &&& t.input == m
                &&& t.expression == seq![' ']
            })
        }),
{
}

/// A digit starts a new entry after a result, an operator or an error, or
/// replaces a lone `0`; otherwise it is appended to the entry. Nothing but the
/// entry and its state change.
pub proof fn lemma_digit_key_enters(s: CalculatorState, d: char, e: EvaluationView)
    ensures
        ({
            let t = s.step(Action::Digit(d), e);
            &&& !t.error
            &&& !t.start_new
            &&& t.operator == s.operator
            &&& t.stored_bits == s.stored_bits
            &&& t.expression == s.expression
            &&& (s.start_new || s.error || s.input == seq!['0'] ==> t.input == seq![d])
            &&& (!s.start_new && !s.error && s.input != seq!['0'] ==> t.input == s.input.push(d)
                && t.input.drop_last() == s.input)
        }),
{
    let t = s.step(Action::Digit(d), e);
    if !s.start_new && !s.error && s.input != seq!['0'] {
        assert(t.input.drop_last() =~= s.input);
    }
}

/// With an operator pending and a display that parses, `=` shows the result,
/// stores it, drops the operator and writes `stored op entry =` on the
/// expression line; a failed operation shows its message instead. Without a
/// pending operator, or in the error state, `=` does nothing.
pub proof fn lemma_equals_key_evaluates(s: CalculatorState, e: EvaluationView)
    requires
        s.fits(e),
    ensures
        ({
            let t = s.step(Action::Equals, e);
            &&& (s.error || s.operator is None || e.input is None ==> t == s)
            &&& (!s.error && s.operator is Some && e.input is Some ==> (e.outcome matches Some(Ok(r))
                ==> {
                &&& t.input == r.text
                &&& t.stored_bits == r.bits
                &&& t.operator is None
                &&& t.start_new
                &&& !t.error
                &&& t.expression == e.stored_text + seq![' '] + shown_symbol(s.operator->0) + seq![' ']
                    + e.input->0.text + seq![' ', '=']
            }))
            &&& (!s.error && s.operator is Some && e.input is Some ==> (e.outcome matches Some(Err(m))
                ==> {
                &&& t.input == m
                &&& t.error
                &&& t.start_new
                &&& t.expression == seq![' ']
            }))
        }),
{
}

/// Backspace removes the last character of a typed entry; an entry of one
/// character, or one that would leave a lone `-`, becomes `0` and the next
/// digit starts afresh. After a result, an operator or an error it does
/// nothing.
pub proof fn lemma_backspace_key_erases(s: CalculatorState, e: EvaluationView)
    requires
        s.well_shaped(),
    ensures
        ({
            let t = s.step(Action::Backspace, e);
            &&& (s.start_new || s.error ==> t == s)
            &&& (!s.start_new && !s.error ==> {
                &&& t.operator == s.operator
                &&& t.stored_bits == s.stored_bits
                &&& t.expression == s.expression
                &&& !t.error
                &&& (s.input.len() > 1 && s.input.drop_last() != seq!['-'] ==> t.input == s.input.drop_last()
                    && !t.start_new)
                &&& (s.input.len() <= 1 || s.input.drop_last() == seq!['-'] ==> t.input == seq!['0']
                    && t.start_new)
            })
        }),
{
    if !s.start_new && !s.error {
        lemma_ascii_byte_len(s.input);
    }
}

} // verus!
